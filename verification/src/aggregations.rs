//! Aggregations that users declare: the statements about them, and the documents they are kept in.
//!
//! A document holds the author's code as written, because a later reader needs it to know what a
//! column was computed by.

use crate::snapshots;
use crate::lists;
use crate::text::{
    self, chars_of, contains, find_from, is_space_char, same, split_words, text_between, to_lower_ascii,
    to_upper, trim, trim_leading_space, trim_trailing,
};
use crate::wire::{self, completed, refusal, FieldDescription, QueryFailure, QueryResult};
use vstd::prelude::*;

verus! {

/// The directory that documents lie in, under a name that discovery passes over.
pub const DIRECTORY: &'static str = "_aggregations";

/// An aggregation that a user declared.
#[derive(PartialEq, Eq, Debug)]
pub struct Aggregation {
    /// What it is called in a query.
    pub name: String,
    /// The author's code.
    pub source: String,
    /// Whether partial results compose.
    pub composes: bool,
}

impl View for Aggregation {
    type V = (Seq<char>, Seq<char>, bool);

    open spec fn view(&self) -> (Seq<char>, Seq<char>, bool) {
        (self.name@, self.source@, self.composes)
    }
}

impl Clone for Aggregation {
    fn clone(&self) -> (r: Self)
        ensures
            r == *self,
    {
        Aggregation { name: self.name.clone(), source: self.source.clone(), composes: self.composes }
    }
}

// --- statements -------------------------------------------------------------------------------

/// A statement about aggregations.
#[derive(PartialEq, Eq, Debug)]
pub enum Statement {
    /// Declare one.
    Create {
        /// What it will be called.
        name: String,
        /// The author's code.
        source: String,
    },
    /// Remove one.
    Drop {
        /// Which.
        name: String,
        /// Whether it may be missing.
        if_exists: bool,
    },
    /// List them.
    Show,
}

/// What a statement about aggregations says.
pub enum StatementView {
    /// Declare one: its name and its code.
    Create(Seq<char>, Seq<char>),
    /// Remove one: its name, and whether it may be missing.
    Drop(Seq<char>, bool),
    /// List them.
    Show,
}

impl View for Statement {
    type V = StatementView;

    open spec fn view(&self) -> StatementView {
        match self {
            Statement::Create { name, source } => StatementView::Create(name@, source@),
            Statement::Drop { name, if_exists } => StatementView::Drop(name@, *if_exists),
            Statement::Show => StatementView::Show,
        }
    }
}

/// What follows a keyword and the space behind it, where a text begins with both.
pub open spec fn after_keyword(s: Seq<char>, keyword: Seq<char>) -> Option<Seq<char>> {
    let n = keyword.len();
    if s.len() > n && text::lower_ascii(s.take(n as int)) == text::lower_ascii(keyword) && text::is_space(s[n as int]) {
        Some(text::trim_start(s.skip(n as int)))
    } else {
        None
    }
}

/// What follows two keywords, where a text begins with both.
pub open spec fn after_keywords(s: Seq<char>, first: Seq<char>, second: Seq<char>) -> Option<Seq<char>> {
    match after_keyword(text::trim_start(s), first) {
        Some(rest) => after_keyword(rest, second),
        None => None,
    }
}

/// Whether a text holds a space anywhere.
pub open spec fn has_space(s: Seq<char>) -> bool {
    exists|i: int| 0 <= i < s.len() && text::is_space(#[trigger] s[i])
}

/// A statement without the space around it and the semicolons behind it.
pub open spec fn bare_statement(sql: Seq<char>) -> Seq<char> {
    text::trimmed(text::without_trailing(text::trimmed(sql), ';'))
}

/// The statement that drops an aggregation, by what follows its keywords: one name and nothing more.
pub open spec fn drop_written(rest: Seq<char>) -> Option<StatementView> {
    let (if_exists, named) = match after_keywords(rest, "IF"@, "EXISTS"@) {
        Some(after) => (true, after),
        None => (false, rest),
    };
    let name = text::trimmed(named);
    if name.len() == 0 || has_space(name) {
        None
    } else {
        Some(StatementView::Drop(name, if_exists))
    }
}

/// The statement that declares an aggregation, by what follows its keywords: its name and language,
/// then its code between the first and the last pair of dollar signs.
pub open spec fn create_written(rest: Seq<char>) -> Option<StatementView> {
    match text::first_from(rest, "$$"@, 0) {
        None => None,
        Some(at) => {
            let head = text::trimmed(rest.take(at));
            let body = rest.skip(at + 2);
            match text::last_at(body, "$$"@) {
                None => None,
                Some(end) => {
                    let words = text::words(head);
                    if words.len() == 0 || !text::holds(text::uppercase(head), "LANGUAGE PYTHON"@) {
                        None
                    } else {
                        Some(StatementView::Create(words[0], body.take(end)))
                    }
                },
            }
        },
    }
}

/// The statement about aggregations that a text is, where it is one.
pub open spec fn written(sql: Seq<char>) -> Option<StatementView> {
    let bare = bare_statement(sql);
    if text::uppercase(bare) == "SHOW AGGREGATIONS"@ {
        Some(StatementView::Show)
    } else {
        match after_keywords(bare, "DROP"@, "AGGREGATION"@) {
            Some(rest) => drop_written(rest),
            None => match after_keywords(bare, "CREATE"@, "AGGREGATION"@) {
                Some(rest) => create_written(rest),
                None => None,
            },
        }
    }
}

fn strip_keyword(s: &str, keyword: &str) -> (r: Option<String>)
    ensures
        wire::cell(r) == after_keyword(s@, keyword@),
{
    let v = chars_of(s);
    let k = chars_of(keyword);
    let n: usize = k.len();
    if v.len() <= n {
        return None;
    }
    let head = text_between(&v, 0, n);
    assert(head@ =~= s@.take(n as int));
    if !same(to_lower_ascii(head.as_str()).as_str(), to_lower_ascii(keyword).as_str()) {
        return None;
    }
    if !is_space_char(v[n]) {
        return None;
    }
    let rest = text_between(&v, n, v.len());
    assert(rest@ =~= s@.skip(n as int));
    Some(trim_leading_space(rest.as_str()))
}

fn strip_keywords(s: &str, first: &str, second: &str) -> (r: Option<String>)
    ensures
        wire::cell(r) == after_keywords(s@, first@, second@),
{
    match strip_keyword(trim_leading_space(s).as_str(), first) {
        Some(rest) => strip_keyword(rest.as_str(), second),
        None => None,
    }
}

fn holds_space(s: &str) -> (r: bool)
    ensures
        r == has_space(s@),
{
    let v = chars_of(s);
    let mut i: usize = 0;
    while i < v.len()
        invariant
            i <= v@.len(),
            v@ == s@,
            forall|k: int| 0 <= k < i ==> !text::is_space(#[trigger] v@[k]),
        decreases v@.len() - i,
    {
        if is_space_char(v[i]) {
            return true;
        }
        i = i + 1;
    }
    false
}

fn read_drop(rest: &str) -> (r: Option<Statement>)
    ensures
        (match r {
            Some(statement) => Some(statement@),
            None => None,
        }) == drop_written(rest@),
{
    let (if_exists, name) = match strip_keywords(rest, "IF", "EXISTS") {
        Some(after) => (true, trim(after.as_str())),
        None => (false, trim(rest)),
    };
    if name.as_str().is_empty() || holds_space(name.as_str()) {
        None
    } else {
        Some(Statement::Drop { name, if_exists })
    }
}

fn read_create(rest: &str) -> (r: Option<Statement>)
    ensures
        (match r {
            Some(statement) => Some(statement@),
            None => None,
        }) == create_written(rest@),
{
    let v = chars_of(rest);
    let mark = chars_of("$$");
    proof {
        reveal_strlit("$$");
        text::lemma_first_from(rest@, "$$"@, 0);
    }
    let at: usize = match find_from(&v, &mark, 0) {
        Some(at) => at,
        None => {
            return None;
        },
    };
    let whole: usize = v.len();
    assert(text::stands_at(rest@, "$$"@, at as int));
    let head = trim(text_between(&v, 0, at).as_str());
    assert(v@.subrange(0, at as int) =~= rest@.take(at as int));
    let body = text_between(&v, at + 2, whole);
    assert(body@ =~= rest@.skip(at + 2));
    let b = chars_of(body.as_str());
    let end: usize = match text::find_last(&b, &mark) {
        Some(end) => end,
        None => {
            return None;
        },
    };
    let words = split_words(head.as_str());
    assert(text::views(words@).len() == words@.len());
    if words.len() == 0 || !contains(to_upper(head.as_str()).as_str(), "LANGUAGE PYTHON") {
        return None;
    }
    assert(text::views(words@)[0] == words@[0]@);
    let source = text_between(&b, 0, end);
    assert(source@ =~= body@.take(end as int));
    Some(Statement::Create { name: words[0].clone(), source })
}

/// The statement about aggregations that a text is, where it is one.
pub fn parse(sql: &str) -> (r: Option<Statement>)
    ensures
        (match r {
            Some(statement) => Some(statement@),
            None => None,
        }) == written(sql@),
{
    let bare = trim(trim_trailing(trim(sql).as_str(), ';').as_str());
    if same(to_upper(bare.as_str()).as_str(), "SHOW AGGREGATIONS") {
        return Some(Statement::Show);
    }
    if let Some(rest) = strip_keywords(bare.as_str(), "DROP", "AGGREGATION") {
        return read_drop(rest.as_str());
    }
    match strip_keywords(bare.as_str(), "CREATE", "AGGREGATION") {
        Some(rest) => read_create(rest.as_str()),
        None => None,
    }
}

// --- documents --------------------------------------------------------------------------------

/// How one character is written inside a quoted text. One that has no spelling of its own stands for
/// itself, because what an author wrote must come back as it was written.
pub open spec fn escaped_char(c: char) -> Seq<char> {
    if c == '"' {
        seq!['\\', '"']
    } else if c == '\\' {
        seq!['\\', '\\']
    } else if c == '\n' {
        seq!['\\', 'n']
    } else if c == '\r' {
        seq!['\\', 'r']
    } else if c == '\t' {
        seq!['\\', 't']
    } else {
        seq![c]
    }
}

/// How a text is written inside quotes.
pub open spec fn escaped(s: Seq<char>) -> Seq<char>
    decreases s.len(),
{
    if s.len() == 0 {
        Seq::empty()
    } else {
        escaped(s.drop_last()) + escaped_char(s.last())
    }
}

/// A text in quotes.
pub open spec fn in_quotes(s: Seq<char>) -> Seq<char> {
    seq!['"'] + escaped(s) + seq!['"']
}

/// What the character behind a backslash stands for.
pub open spec fn unescaped_char(c: char) -> char {
    if c == 'n' {
        '\n'
    } else if c == 't' {
        '\t'
    } else if c == 'r' {
        '\r'
    } else {
        c
    }
}

/// The text that stands before the closing quote, where there is one.
pub open spec fn unquoted(s: Seq<char>) -> Option<Seq<char>>
    decreases s.len(),
{
    if s.len() == 0 {
        None
    } else if s[0] == '"' {
        Some(Seq::empty())
    } else if s[0] == '\\' {
        if s.len() == 1 {
            None
        } else {
            match unquoted(s.skip(2)) {
                Some(rest) => Some(seq![unescaped_char(s[1])] + rest),
                None => None,
            }
        }
    } else {
        match unquoted(s.skip(1)) {
            Some(rest) => Some(seq![s[0]] + rest),
            None => None,
        }
    }
}

/// The quoted text behind the first occurrence of a key, where there is one.
pub open spec fn field_of(document: Seq<char>, key: Seq<char>) -> Option<Seq<char>> {
    match text::first_from(document, key, 0) {
        None => None,
        Some(at) => {
            let after = text::trim_start(document.skip(at + key.len()));
            if after.len() > 0 && after[0] == '"' {
                unquoted(after.skip(1))
            } else {
                None
            }
        },
    }
}

/// The document of an aggregation.
pub open spec fn document(name: Seq<char>, source: Seq<char>, composes: bool) -> Seq<char> {
    "{\"format\":1,\"name\":"@ + in_quotes(name) + ",\"composes\":"@ + (if composes {
        "true"@
    } else {
        "false"@
    }) + ",\"source\":"@ + in_quotes(source) + "}"@
}

/// The aggregation that a document holds, where it holds one.
pub open spec fn held_in(document: Seq<char>) -> Option<(Seq<char>, Seq<char>, bool)> {
    match (field_of(document, "\"name\":"@), field_of(document, "\"source\":"@)) {
        (Some(name), Some(source)) => Some((name, source, text::holds(document, "\"composes\":true"@))),
        _ => None,
    }
}

/// A text in quotes.
pub fn quoted(s: &str) -> (r: String)
    ensures
        r@ == in_quotes(s@),
{
    let v = chars_of(s);
    let mut r = String::new();
    r.push('"');
    assert(r@ =~= seq!['"'] + escaped(v@.take(0)));
    let mut i: usize = 0;
    while i < v.len()
        invariant
            i <= v@.len(),
            r@ == seq!['"'] + escaped(v@.take(i as int)),
        decreases v@.len() - i,
    {
        assert(v@.take(i + 1).drop_last() =~= v@.take(i as int));
        let ghost before = r@;
        let c = v[i];
        if c == '"' {
            r.push('\\');
            r.push('"');
        } else if c == '\\' {
            r.push('\\');
            r.push('\\');
        } else if c == '\n' {
            r.push('\\');
            r.push('n');
        } else if c == '\r' {
            r.push('\\');
            r.push('r');
        } else if c == '\t' {
            r.push('\\');
            r.push('t');
        } else {
            r.push(c);
        }
        assert(r@ =~= before + escaped_char(c));
        assert(r@ =~= seq!['"'] + escaped(v@.take(i + 1)));
        i = i + 1;
    }
    assert(v@.take(v@.len() as int) =~= v@);
    r.push('"');
    assert(r@ =~= in_quotes(s@));
    r
}

fn read_quoted(v: &Vec<char>, from: usize) -> (r: Option<String>)
    requires
        from <= v@.len(),
    ensures
        wire::cell(r) == unquoted(v@.skip(from as int)),
{
    let mut out = String::new();
    let mut i: usize = from;
    let ghost whole = unquoted(v@.skip(from as int));
    assert(out@ =~= Seq::empty());
    proof {
        if whole is Some {
            assert(out@ + whole->Some_0 =~= whole->Some_0);
        }
    }
    while i < v.len()
        invariant
            from <= i <= v@.len(),
            whole == unquoted(v@.skip(from as int)),
            whole is None <==> unquoted(v@.skip(i as int)) is None,
            whole matches Some(all) ==> all == out@ + unquoted(v@.skip(i as int))->Some_0,
        decreases v@.len() - i,
    {
        let ghost rest = v@.skip(i as int);
        let ghost before = out@;
        assert(rest[0] == v@[i as int]);
        assert(rest.skip(1) =~= v@.skip(i + 1));
        let c = v[i];
        if c == '"' {
            assert(whole->Some_0 =~= out@);
            return Some(out);
        }
        if c == '\\' {
            if i + 1 >= v.len() {
                assert(rest.len() == 1);
                return None;
            }
            assert(rest.skip(2) =~= v@.skip(i + 2));
            let d = v[i + 1];
            assert(rest[1] == d);
            if d == 'n' {
                out.push('\n');
            } else if d == 't' {
                out.push('\t');
            } else if d == 'r' {
                out.push('\r');
            } else {
                out.push(d);
            }
            proof {
                if let Some(later) = unquoted(rest.skip(2)) {
                    assert(before + (seq![unescaped_char(d)] + later) =~= out@ + later);
                }
            }
            i = i + 2;
        } else {
            out.push(c);
            proof {
                if let Some(later) = unquoted(rest.skip(1)) {
                    assert(before + (seq![c] + later) =~= out@ + later);
                }
            }
            i = i + 1;
        }
    }
    None
}

fn field(document: &str, key: &str) -> (r: Option<String>)
    ensures
        wire::cell(r) == field_of(document@, key@),
{
    let v = chars_of(document);
    let k = chars_of(key);
    proof {
        text::lemma_first_from(document@, key@, 0);
    }
    let at: usize = match find_from(&v, &k, 0) {
        Some(at) => at,
        None => {
            return None;
        },
    };
    let whole: usize = v.len();
    assert(text::stands_at(document@, key@, at as int));
    let rest = text_between(&v, at + k.len(), whole);
    assert(rest@ =~= document@.skip(at + key@.len()));
    let after = trim_leading_space(rest.as_str());
    let a = chars_of(after.as_str());
    if a.len() > 0 && a[0] == '"' {
        read_quoted(&a, 1)
    } else {
        None
    }
}

/// The document of an aggregation.
pub fn encode(aggregation: &Aggregation) -> (r: String)
    ensures
        r@ == document(aggregation.name@, aggregation.source@, aggregation.composes),
{
    let mut r = "{\"format\":1,\"name\":".to_string();
    r.append(quoted(aggregation.name.as_str()).as_str());
    r.append(",\"composes\":");
    if aggregation.composes {
        r.append("true");
    } else {
        r.append("false");
    }
    r.append(",\"source\":");
    r.append(quoted(aggregation.source.as_str()).as_str());
    r.append("}");
    r
}

/// The aggregation that a document holds, where it holds one.
pub fn decode(document: &str) -> (r: Option<Aggregation>)
    ensures
        (match r {
            Some(aggregation) => Some(aggregation@),
            None => None,
        }) == held_in(document@),
{
    let name = match field(document, "\"name\":") {
        Some(name) => name,
        None => {
            return None;
        },
    };
    let source = match field(document, "\"source\":") {
        Some(source) => source,
        None => {
            return None;
        },
    };
    let composes = contains(document, "\"composes\":true");
    Some(Aggregation { name, source, composes })
}

proof fn lemma_escaped_front(s: Seq<char>)
    requires
        s.len() > 0,
    ensures
        escaped(s) == escaped_char(s[0]) + escaped(s.skip(1)),
    decreases s.len(),
{
    reveal_with_fuel(escaped, 2);
    if s.len() == 1 {
        assert(s.drop_last() =~= Seq::empty());
        assert(s.skip(1) =~= Seq::empty());
        assert(escaped(s) =~= escaped_char(s[0]) + escaped(s.skip(1)));
    } else {
        lemma_escaped_front(s.drop_last());
        assert(s.drop_last().skip(1) =~= s.skip(1).drop_last());
        assert(escaped(s) =~= escaped_char(s[0]) + (escaped(s.skip(1).drop_last()) + escaped_char(s.last())));
        assert(s.skip(1).last() == s.last());
    }
}

/// What was put in quotes is read back from them, whatever follows.
proof fn lemma_unquoted(s: Seq<char>, rest: Seq<char>)
    ensures
        unquoted(escaped(s) + seq!['"'] + rest) == Some(s),
    decreases s.len(),
{
    let whole = escaped(s) + seq!['"'] + rest;
    if s.len() == 0 {
        assert(escaped(s) =~= Seq::empty());
        assert(whole[0] == '"');
        assert(s =~= Seq::empty());
    } else {
        let c = s[0];
        let later = escaped(s.skip(1)) + seq!['"'] + rest;
        lemma_escaped_front(s);
        lemma_unquoted(s.skip(1), rest);
        assert(whole =~= escaped_char(c) + later);
        assert(seq![c] + s.skip(1) =~= s);
        if escaped_char(c).len() == 2 {
            assert(whole.skip(2) =~= later);
            assert(whole[0] == '\\');
            assert(unescaped_char(whole[1]) == c);
        } else {
            assert(whole.skip(1) =~= later);
            assert(whole[0] == c);
        }
    }
}

/// Inside quotes a quote stands behind a backslash.
proof fn lemma_quotes_escaped(s: Seq<char>, k: int)
    requires
        0 <= k < escaped(s).len(),
        escaped(s)[k] == '"',
    ensures
        k >= 1,
        escaped(s)[k - 1] == '\\',
    decreases s.len(),
{
    let before = escaped(s.drop_last());
    if k < before.len() {
        lemma_quotes_escaped(s.drop_last(), k);
    }
}

/// A key does not stand anywhere in a text in quotes: its own closing quote would need a backslash
/// in front of it.
proof fn lemma_no_key_inside(s: Seq<char>, start: int, inner: Seq<char>, key: Seq<char>, w: int, j: int)
    requires
        0 <= start,
        start + in_quotes(inner).len() < s.len(),
        s.subrange(start, start + in_quotes(inner).len()) == in_quotes(inner),
        s[start + in_quotes(inner).len()] != ':',
        s[start + in_quotes(inner).len()] != key[1],
        1 <= w,
        key.len() >= w + 3,
        key[0] == '"',
        key[w + 1] == '"',
        key[w + 2] == ':',
        forall|i: int| 1 <= i <= w ==> #[trigger] key[i] != '"' && key[i] != '\\',
        start <= j < start + in_quotes(inner).len(),
    ensures
        !text::stands_at(s, key, j),
{
    let quotes = in_quotes(inner);
    let end = start + quotes.len();
    if text::stands_at(s, key, j) {
        assert forall|i: int| 0 <= i < key.len() implies s[j + i] == key[i] by {
            assert(s.subrange(j, j + key.len())[i] == key[i]);
        }
        assert forall|x: int| 0 <= x < quotes.len() implies s[start + x] == quotes[x] by {
            assert(s.subrange(start, end)[x] == quotes[x]);
        }
        let q = j + w + 1;
        assert(s[q] == '"') by {
            assert(s[j + (w + 1)] == key[w + 1]);
        }
        assert(s[end - 1] == '"') by {
            assert(s[start + (quotes.len() - 1)] == quotes[quotes.len() - 1]);
        }
        if j == end - 1 {
            assert(s[j + 1] == key[1]);
        } else if q < end - 1 {
            let k = q - start - 1;
            assert(quotes[k + 1] == escaped(inner)[k]);
            assert(s[start + (k + 1)] == quotes[k + 1]);
            lemma_quotes_escaped(inner, k);
            assert(quotes[k] == escaped(inner)[k - 1]);
            assert(s[start + k] == quotes[k]);
            assert(s[j + w] == key[w]);
        } else if q == end - 1 {
            assert(s[j + (w + 2)] == key[w + 2]);
        } else {
            let i = end - 1 - j;
            assert(s[j + i] == key[i]);
        }
    }
}

/// A key does not stand where the character it begins with, or the one behind, is another.
proof fn lemma_no_key_at(s: Seq<char>, key: Seq<char>, j: int)
    requires
        key.len() >= 2,
        0 <= j < s.len(),
        s[j] != key[0] || j + 1 >= s.len() || s[j + 1] != key[1],
    ensures
        !text::stands_at(s, key, j),
{
    if text::stands_at(s, key, j) {
        assert(s.subrange(j, j + key.len())[0] == key[0]);
        assert(s.subrange(j, j + key.len())[1] == key[1]);
    }
}

/// What an aggregation's document holds is what was put in it, character for character.
pub proof fn documents_read_back(name: Seq<char>, source: Seq<char>, composes: bool)
    ensures
        held_in(document(name, source, composes)) == Some((name, source, composes)),
{
    lemma_name_read(name, source, composes);
    lemma_source_read(name, source, composes);
    lemma_composes_read(name, source, composes);
}

proof fn lemma_name_read(name: Seq<char>, source: Seq<char>, composes: bool)
    ensures
        field_of(document(name, source, composes), "\"name\":"@) == Some(name),
{
    reveal_strlit("{\"format\":1,\"name\":");
    reveal_strlit("\"name\":");
    let d = document(name, source, composes);
    let key = "\"name\":"@;
    let head = "{\"format\":1,\"name\":"@;
    let tail = ",\"composes\":"@ + (if composes {
        "true"@
    } else {
        "false"@
    }) + ",\"source\":"@ + in_quotes(source) + "}"@;
    assert(d =~= head + in_quotes(name) + tail);
    assert(d.subrange(12, 19) =~= key);
    assert(text::stands_at(d, key, 12));
    assert forall|j: int| 0 <= j < 12 implies !#[trigger] text::stands_at(d, key, j) by {
        assert(d[j] == head[j]);
        assert(d[j + 1] == head[j + 1]);
        lemma_no_key_at(d, key, j);
    }
    text::lemma_first_from(d, key, 0);
    assert(text::first_from(d, key, 0) == Some(12int));
    let after = d.skip(19);
    assert(after =~= in_quotes(name) + tail);
    assert(after[0] == '"');
    assert(text::trim_start(after) == after);
    assert(after.skip(1) =~= escaped(name) + seq!['"'] + tail);
    lemma_unquoted(name, tail);
}

proof fn lemma_source_read(name: Seq<char>, source: Seq<char>, composes: bool)
    ensures
        field_of(document(name, source, composes), "\"source\":"@) == Some(source),
{
    reveal_strlit("{\"format\":1,\"name\":");
    reveal_strlit(",\"composes\":");
    reveal_strlit(",\"source\":");
    reveal_strlit("\"source\":");
    reveal_strlit("true");
    reveal_strlit("false");
    reveal_strlit("}");
    let d = document(name, source, composes);
    let key = "\"source\":"@;
    let head = "{\"format\":1,\"name\":"@;
    let mid = ",\"composes\":"@;
    let said = if composes {
        "true"@
    } else {
        "false"@
    };
    let last = ",\"source\":"@;
    let n = in_quotes(name);
    let q = in_quotes(source);
    assert(d =~= head + n + mid + said + last + q + "}"@);
    let a: int = 19;
    let b: int = a + n.len();
    let c: int = b + 12;
    let e: int = c + said.len();
    let p: int = e + 1;
    assert(d.subrange(p, p + 9) =~= key);
    assert(text::stands_at(d, key, p));
    assert forall|j: int| 0 <= j < p implies !#[trigger] text::stands_at(d, key, j) by {
        if j < a {
            assert(d[j] == head[j]);
            if j + 1 < a {
                assert(d[j + 1] == head[j + 1]);
            }
            lemma_no_key_at(d, key, j);
        } else if j < b {
            assert(d.subrange(a, b) =~= n);
            assert(d[b] == mid[0]);
            lemma_no_key_inside(d, a, name, key, 6, j);
        } else if j < c {
            assert(d[j] == mid[j - b]);
            if j + 1 < c {
                assert(d[j + 1] == mid[j + 1 - b]);
            }
            lemma_no_key_at(d, key, j);
        } else if j < e {
            assert(d[j] == said[j - c]);
            lemma_no_key_at(d, key, j);
        } else {
            assert(d[j] == last[0]);
            lemma_no_key_at(d, key, j);
        }
    }
    text::lemma_first_from(d, key, 0);
    assert(text::first_from(d, key, 0) == Some(p));
    let after = d.skip(p + 9);
    assert(after =~= q + "}"@);
    assert(after[0] == '"');
    assert(text::trim_start(after) == after);
    assert(after.skip(1) =~= escaped(source) + seq!['"'] + "}"@);
    lemma_unquoted(source, "}"@);
}

proof fn lemma_composes_read(name: Seq<char>, source: Seq<char>, composes: bool)
    ensures
        text::holds(document(name, source, composes), "\"composes\":true"@) == composes,
{
    reveal_strlit("{\"format\":1,\"name\":");
    reveal_strlit(",\"composes\":");
    reveal_strlit(",\"source\":");
    reveal_strlit("\"composes\":true");
    reveal_strlit("true");
    reveal_strlit("false");
    reveal_strlit("}");
    let d = document(name, source, composes);
    let key = "\"composes\":true"@;
    let head = "{\"format\":1,\"name\":"@;
    let mid = ",\"composes\":"@;
    let said = if composes {
        "true"@
    } else {
        "false"@
    };
    let last = ",\"source\":"@;
    let n = in_quotes(name);
    let q = in_quotes(source);
    assert(d =~= head + n + mid + said + last + q + "}"@);
    let a: int = 19;
    let b: int = a + n.len();
    let c: int = b + 12;
    let e: int = c + said.len();
    let f: int = e + 10;
    let g: int = f + q.len();
    if composes {
        assert(d.subrange(b + 1, b + 16) =~= key);
        assert(text::stands_at(d, key, b + 1));
    } else {
        assert forall|j: int| !#[trigger] text::stands_at(d, key, j) by {
            if 0 <= j < d.len() {
                if j < a {
                    assert(d[j] == head[j]);
                    if j + 1 < a {
                        assert(d[j + 1] == head[j + 1]);
                    }
                    lemma_no_key_at(d, key, j);
                } else if j < b {
                    assert(d.subrange(a, b) =~= n);
                    assert(d[b] == mid[0]);
                    lemma_no_key_inside(d, a, name, key, 8, j);
                } else if j == b + 1 {
                    if text::stands_at(d, key, j) {
                        assert(d.subrange(j, j + key.len())[11] == key[11]);
                        assert(d[c] == said[0]);
                    }
                } else if j < c {
                    assert(d[j] == mid[j - b]);
                    if j + 1 < c {
                        assert(d[j + 1] == mid[j + 1 - b]);
                    }
                    lemma_no_key_at(d, key, j);
                } else if j < e {
                    assert(d[j] == said[j - c]);
                    lemma_no_key_at(d, key, j);
                } else if j < f {
                    assert(d[j] == last[j - e]);
                    if j + 1 < f {
                        assert(d[j + 1] == last[j + 1 - e]);
                    }
                    lemma_no_key_at(d, key, j);
                } else if j < g {
                    assert(d.subrange(f, g) =~= q);
                    assert(d[g] == "}"@[0]);
                    lemma_no_key_inside(d, f, source, key, 8, j);
                } else {
                    assert(d[g] == "}"@[0]);
                    lemma_no_key_at(d, key, j);
                }
            }
        }
    }
}

// --- the list ---------------------------------------------------------------------------------

/// What aggregations are.
pub open spec fn all_views(list: Seq<Aggregation>) -> Seq<(Seq<char>, Seq<char>, bool)> {
    list.map_values(|a: Aggregation| a@)
}

/// The place of a name in a list in order: before the first that follows it.
pub open spec fn place_of(list: Seq<(Seq<char>, Seq<char>, bool)>, name: Seq<char>) -> int
    decreases list.len(),
{
    if list.len() == 0 || text::precedes(name, list[0].0) {
        0
    } else {
        1 + place_of(list.skip(1), name)
    }
}

/// A list in the order of the names, those of one name as they came.
pub open spec fn in_name_order(list: Seq<(Seq<char>, Seq<char>, bool)>) -> Seq<(Seq<char>, Seq<char>, bool)>
    decreases list.len(),
{
    if list.len() == 0 {
        Seq::empty()
    } else {
        let before = in_name_order(list.drop_last());
        before.insert(place_of(before, list.last().0), list.last())
    }
}

proof fn lemma_place_of(list: Seq<(Seq<char>, Seq<char>, bool)>, name: Seq<char>)
    ensures
        0 <= place_of(list, name) <= list.len(),
        forall|k: int| 0 <= k < place_of(list, name) ==> !text::precedes(name, (#[trigger] list[k]).0),
        place_of(list, name) < list.len() ==> text::precedes(name, list[place_of(list, name)].0),
    decreases list.len(),
{
    if list.len() > 0 && !text::precedes(name, list[0].0) {
        lemma_place_of(list.skip(1), name);
        assert forall|k: int| 0 <= k < place_of(list, name) implies !text::precedes(name, (#[trigger] list[k]).0) by {
            if k > 0 {
                assert(list.skip(1)[k - 1] == list[k]);
            }
        }
    }
}

/// Whether a list stands in the order of the names.
pub open spec fn is_in_name_order(list: Seq<(Seq<char>, Seq<char>, bool)>) -> bool {
    forall|i: int, j: int|
        0 <= i < j < list.len() ==> !text::precedes((#[trigger] list[j]).0, (#[trigger] list[i]).0)
}

/// A list in order stands in order, and holds what the list held.
pub proof fn listing_is_in_order(list: Seq<(Seq<char>, Seq<char>, bool)>)
    ensures
        is_in_name_order(in_name_order(list)),
        in_name_order(list).to_multiset() == list.to_multiset(),
    decreases list.len(),
{
    if list.len() > 0 {
        let before = in_name_order(list.drop_last());
        let x = list.last();
        let at = place_of(before, x.0);
        listing_is_in_order(list.drop_last());
        lemma_place_of(before, x.0);
        let after = before.insert(at, x);
        assert forall|i: int, j: int| 0 <= i < j < after.len() implies !text::precedes(
            (#[trigger] after[j]).0,
            (#[trigger] after[i]).0,
        ) by {
            let bi = if i < at {
                i
            } else {
                i - 1
            };
            let bj = if j < at {
                j
            } else {
                j - 1
            };
            if i == at {
                assert(after[j] == before[bj]);
                if text::precedes(before[bj].0, x.0) {
                    text::lemma_precedes_transitive(before[bj].0, x.0, before[at].0);
                    if bj > at {
                        assert(!text::precedes(before[bj].0, before[at].0));
                    } else {
                        text::lemma_precedes_irreflexive(before[at].0);
                    }
                }
            } else if j == at {
                assert(after[i] == before[i]);
            } else {
                assert(after[i] == before[bi]);
                assert(after[j] == before[bj]);
            }
        }
        vstd::seq_lib::to_multiset_insert(before, at, x);
        list.drop_last().to_multiset_ensures();
        assert(list.drop_last().push(x) =~= list);
    } else {
        assert(list =~= Seq::empty());
    }
}

fn place_in(list: &mut Vec<Aggregation>, aggregation: Aggregation)
    ensures
        all_views(final(list)@) == all_views(old(list)@).insert(
            place_of(all_views(old(list)@), aggregation.name@),
            aggregation@,
        ),
{
    let ghost all = all_views(list@);
    let ghost name = aggregation.name@;
    let ghost added = aggregation@;
    let mut at: usize = 0;
    assert(all.skip(0) =~= all);
    while at < list.len() && !text::before(aggregation.name.as_str(), list[at].name.as_str())
        invariant
            at <= list@.len(),
            all == all_views(list@),
            name == aggregation.name@,
            place_of(all, name) == at + place_of(all.skip(at as int), name),
        decreases list@.len() - at,
    {
        assert(all.skip(at as int)[0] == list@[at as int]@);
        assert(all.skip(at as int).skip(1) =~= all.skip(at + 1));
        at = at + 1;
    }
    proof {
        if at < list@.len() {
            assert(all.skip(at as int)[0] == list@[at as int]@);
        }
    }
    list.insert(at, aggregation);
    assert(all_views(list@) =~= all.insert(at as int, added));
}

/// A list in the order of the names.
pub fn sorted(list: &Vec<Aggregation>) -> (r: Vec<Aggregation>)
    ensures
        all_views(r@) == in_name_order(all_views(list@)),
{
    let ghost all = all_views(list@);
    let mut r: Vec<Aggregation> = Vec::new();
    let mut i: usize = 0;
    assert(all_views(r@) =~= in_name_order(all.take(0)));
    while i < list.len()
        invariant
            i <= list@.len(),
            all == all_views(list@),
            all_views(r@) == in_name_order(all.take(i as int)),
        decreases list@.len() - i,
    {
        assert(all.take(i + 1).drop_last() =~= all.take(i as int));
        place_in(&mut r, list[i].clone());
        i = i + 1;
    }
    assert(all.take(all.len() as int) =~= all);
    r
}

/// A list without those of a name.
pub open spec fn without_name(list: Seq<(Seq<char>, Seq<char>, bool)>, name: Seq<char>) -> Seq<
    (Seq<char>, Seq<char>, bool),
>
    decreases list.len(),
{
    if list.len() == 0 {
        Seq::empty()
    } else {
        let before = without_name(list.drop_last(), name);
        if list.last().0 == name {
            before
        } else {
            before.push(list.last())
        }
    }
}

/// Stop serving the aggregations of a name.
pub fn forget_aggregation(list: &Vec<Aggregation>, name: &str) -> (r: Vec<Aggregation>)
    ensures
        all_views(r@) == without_name(all_views(list@), name@),
{
    let ghost all = all_views(list@);
    let mut r: Vec<Aggregation> = Vec::new();
    let mut i: usize = 0;
    assert(all_views(r@) =~= Seq::empty());
    while i < list.len()
        invariant
            i <= list@.len(),
            all == all_views(list@),
            all_views(r@) == without_name(all.take(i as int), name@),
        decreases list@.len() - i,
    {
        assert(all.take(i + 1).drop_last() =~= all.take(i as int));
        if !same(list[i].name.as_str(), name) {
            let ghost was = r@;
            r.push(list[i].clone());
            assert(all_views(r@) =~= all_views(was).push(all[i as int]));
        }
        i = i + 1;
    }
    assert(all.take(all.len() as int) =~= all);
    r
}

/// Serve an aggregation, in place of any of its name.
pub fn remember_aggregation(list: &Vec<Aggregation>, aggregation: Aggregation) -> (r: Vec<Aggregation>)
    ensures
        all_views(r@) == in_name_order(without_name(all_views(list@), aggregation.name@).push(aggregation@)),
{
    let mut next = forget_aggregation(list, aggregation.name.as_str());
    let ghost was = next@;
    let ghost added = aggregation@;
    next.push(aggregation);
    assert(all_views(next@) =~= all_views(was).push(added));
    sorted(&next)
}

/// The aggregations that documents hold, in the order of their names. A document that cannot be read
/// and one that holds none are passed over.
pub open spec fn held_in_all(documents: Seq<Option<Seq<char>>>) -> Seq<(Seq<char>, Seq<char>, bool)>
    decreases documents.len(),
{
    if documents.len() == 0 {
        Seq::empty()
    } else {
        let before = held_in_all(documents.drop_last());
        match documents.last() {
            None => before,
            Some(document) => match held_in(document) {
                Some(aggregation) => before.push(aggregation),
                None => before,
            },
        }
    }
}

/// The aggregations that a warehouse holds, by the documents as they were read.
pub fn stored(documents: &Vec<Option<String>>) -> (r: Vec<Aggregation>)
    ensures
        all_views(r@) == in_name_order(held_in_all(documents@.map_values(|d: Option<String>| wire::cell(d)))),
{
    let ghost all = documents@.map_values(|d: Option<String>| wire::cell(d));
    let mut found: Vec<Aggregation> = Vec::new();
    let mut i: usize = 0;
    assert(all_views(found@) =~= Seq::empty());
    while i < documents.len()
        invariant
            i <= documents@.len(),
            all == documents@.map_values(|d: Option<String>| wire::cell(d)),
            all_views(found@) == held_in_all(all.take(i as int)),
        decreases documents@.len() - i,
    {
        assert(all.take(i + 1).drop_last() =~= all.take(i as int));
        if let Some(document) = &documents[i] {
            if let Some(aggregation) = decode(document.as_str()) {
                let ghost was = found@;
                let ghost added = aggregation@;
                found.push(aggregation);
                assert(all_views(found@) =~= all_views(was).push(added));
            }
        }
        i = i + 1;
    }
    assert(all.take(all.len() as int) =~= all);
    sorted(&found)
}

// --- running ----------------------------------------------------------------------------------

/// What is answered with the list of aggregations: each with whether it composes and with its code,
/// because what nobody can review nobody should be granted.
pub open spec fn shown(list: Seq<(Seq<char>, Seq<char>, bool)>) -> wire::Answer {
    wire::Answer {
        fields: seq![
            ("aggregation"@, wire::OID_TEXT, wire::VARIES),
            ("composes"@, wire::OID_TEXT, wire::VARIES),
            ("source"@, wire::OID_TEXT, wire::VARIES),
        ],
        rows: list.map_values(
            |a: (Seq<char>, Seq<char>, bool)|
                seq![
                    Some(a.0),
                    Some(
                        if a.2 {
                            "yes"@
                        } else {
                            "no"@
                        },
                    ),
                    Some(a.1),
                ],
        ),
        tag: "SHOW"@,
    }
}

/// The list of aggregations.
pub fn show(list: &Vec<Aggregation>) -> (r: QueryResult)
    ensures
        r@ == shown(all_views(list@)),
{
    let ghost expected = shown(all_views(list@));
    let mut rows: Vec<Vec<Option<String>>> = Vec::new();
    let mut i: usize = 0;
    while i < list.len()
        invariant
            i <= list@.len(),
            expected == shown(all_views(list@)),
            rows@.len() == i,
            forall|k: int| 0 <= k < i ==> wire::row(#[trigger] rows@[k]) == expected.rows[k],
        decreases list@.len() - i,
    {
        let mut row: Vec<Option<String>> = Vec::new();
        row.push(Some(list[i].name.clone()));
        if list[i].composes {
            row.push(Some("yes".to_string()));
        } else {
            row.push(Some("no".to_string()));
        }
        row.push(Some(list[i].source.clone()));
        assert(wire::row(row) =~= expected.rows[i as int]);
        rows.push(row);
        i = i + 1;
    }
    let mut fields: Vec<FieldDescription> = Vec::new();
    fields.push(FieldDescription::text("aggregation", wire::OID_TEXT, wire::VARIES));
    fields.push(FieldDescription::text("composes", wire::OID_TEXT, wire::VARIES));
    fields.push(FieldDescription::text("source", wire::OID_TEXT, wire::VARIES));
    let r = QueryResult { fields, rows, tag: "SHOW".to_string() };
    assert(r@.fields =~= expected.fields);
    assert(r@.rows =~= expected.rows);
    r
}

/// What becomes of a statement about aggregations.
pub enum Running {
    /// It is answered.
    Answered(Result<QueryResult, QueryFailure>),
    /// The document of this name is removed.
    Remove(String),
    /// The code is tried, and kept under this name where it agrees with itself.
    Declare(String, String),
}

/// What becomes of a statement about aggregations, as text.
pub enum RunningView {
    /// It is answered.
    Answered(Result<wire::Answer, wire::Refusal>),
    /// The document of this name is removed.
    Remove(Seq<char>),
    /// The code is tried, and kept under this name where it agrees with itself.
    Declare(Seq<char>, Seq<char>),
}

impl View for Running {
    type V = RunningView;

    open spec fn view(&self) -> RunningView {
        match self {
            Running::Answered(outcome) => RunningView::Answered(wire::reply(*outcome)),
            Running::Remove(name) => RunningView::Remove(name@),
            Running::Declare(name, source) => RunningView::Declare(name@, source@),
        }
    }
}

/// What becomes of a statement, where `accepted` says whether the server runs code that callers
/// supply at all, and `exists` whether a document of its name lies there. One that is there is not
/// replaced: that would change every answer computed with it.
pub open spec fn running(
    statement: StatementView,
    accepted: bool,
    exists: bool,
    list: Seq<(Seq<char>, Seq<char>, bool)>,
) -> RunningView {
    match statement {
        StatementView::Show => RunningView::Answered(Ok(shown(list))),
        StatementView::Drop(name, if_exists) => if exists {
            RunningView::Remove(name)
        } else if if_exists {
            RunningView::Answered(Ok(wire::done("DROP AGGREGATION"@)))
        } else {
            RunningView::Answered(
                Err(wire::refused(wire::DATA_EXCEPTION@, "there is no aggregation `"@ + name + "`"@)),
            )
        },
        StatementView::Create(name, source) => if !accepted {
            RunningView::Answered(
                Err(
                    wire::refused(
                        wire::DATA_EXCEPTION@,
                        "the aggregation `"@ + name
                            + "` was not created. `CREATE AGGREGATION` runs supplied code, and this server accepts none unless `server.user_functions` says so"@,
                    ),
                ),
            )
        } else if exists {
            RunningView::Answered(
                Err(
                    wire::refused(
                        wire::DATA_EXCEPTION@,
                        "the aggregation `"@ + name
                            + "` already exists. Drop it first: replacing one changes every answer computed with it, and a re-run of a script should not do that silently"@,
                    ),
                ),
            )
        } else {
            RunningView::Declare(name, source)
        },
    }
}

/// What becomes of a statement about aggregations.
pub fn run(statement: Statement, accepted: bool, exists: bool, list: &Vec<Aggregation>) -> (r: Running)
    ensures
        r@ == running(statement@, accepted, exists, all_views(list@)),
{
    match statement {
        Statement::Show => Running::Answered(Ok(show(list))),
        Statement::Drop { name, if_exists } => {
            if exists {
                Running::Remove(name)
            } else if if_exists {
                Running::Answered(Ok(completed("DROP AGGREGATION")))
            } else {
                let mut message = "there is no aggregation `".to_string();
                message.append(name.as_str());
                message.append("`");
                Running::Answered(Err(refusal(wire::DATA_EXCEPTION, message.as_str())))
            }
        },
        Statement::Create { name, source } => {
            if !accepted {
                let mut message = "the aggregation `".to_string();
                message.append(name.as_str());
                message.append(
                    "` was not created. `CREATE AGGREGATION` runs supplied code, and this server accepts none unless `server.user_functions` says so",
                );
                Running::Answered(Err(refusal(wire::DATA_EXCEPTION, message.as_str())))
            } else if exists {
                let mut message = "the aggregation `".to_string();
                message.append(name.as_str());
                message.append(
                    "` already exists. Drop it first: replacing one changes every answer computed with it, and a re-run of a script should not do that silently",
                );
                Running::Answered(Err(refusal(wire::DATA_EXCEPTION, message.as_str())))
            } else {
                Running::Declare(name, source)
            }
        },
    }
}

/// A server that does not accept supplied code runs none, whatever is asked of it.
pub proof fn a_closed_door_runs_nothing(
    statement: StatementView,
    exists: bool,
    list: Seq<(Seq<char>, Seq<char>, bool)>,
)
    ensures
        !(running(statement, false, exists, list) is Declare),
{
}

/// What is answered once a document was removed or could not be.
pub fn removed(outcome: Result<(), String>) -> (r: Result<QueryResult, QueryFailure>)
    ensures
        wire::reply(r) == (match outcome {
            Ok(()) => Ok(wire::done("DROP AGGREGATION"@)),
            Err(why) => Err(wire::refused(wire::IO_ERROR@, why@)),
        }),
{
    match outcome {
        Ok(()) => Ok(completed("DROP AGGREGATION")),
        Err(why) => Err(refusal(wire::IO_ERROR, why.as_str())),
    }
}

/// What is answered once an aggregation was tried, where `refused` says why it cannot be trusted,
/// and then kept, where `unwritten` says why it could not be.
pub fn declared(refused: Option<String>, unwritten: Option<String>) -> (r: Result<QueryResult, QueryFailure>)
    ensures
        wire::reply(r) == (match (refused, unwritten) {
            (Some(why), _) => Err(wire::refused(wire::DATA_EXCEPTION@, why@)),
            (None, Some(why)) => Err(wire::refused(wire::IO_ERROR@, why@)),
            (None, None) => Ok(wire::done("CREATE AGGREGATION"@)),
        }),
{
    if let Some(why) = refused {
        return Err(refusal(wire::DATA_EXCEPTION, why.as_str()));
    }
    match unwritten {
        Some(why) => Err(refusal(wire::IO_ERROR, why.as_str())),
        None => Ok(completed("CREATE AGGREGATION")),
    }
}

/// A statement that drops an aggregation names it, in capitals or small letters, and may say that it need not
/// be there.
pub proof fn drops_are_read(drop: Seq<char>, kind: Seq<char>, sure: Seq<char>, there: Seq<char>, name: Seq<char>)
    requires
        text::lower_ascii(drop) == "drop"@,
        text::lower_ascii(kind) == "aggregation"@,
        text::lower_ascii(sure) == "if"@,
        text::lower_ascii(there) == "exists"@,
        name.len() > 0,
        forall|i: int| 0 <= i < name.len() ==> !text::is_space(#[trigger] name[i]),
        text::all_ascii(name),
        name.last() != ';',
    ensures
        written(drop + seq![' '] + (kind + seq![' '] + name)) == Some(StatementView::Drop(name, false)),
        written(drop + seq![' '] + (kind + seq![' '] + (sure + seq![' '] + (there + seq![' '] + name)))) == Some(
            StatementView::Drop(name, true),
        ),
{
    lemma_keyword_ascii(sure, "if"@);
    lemma_keyword_ascii(there, "exists"@);
    reveal_strlit("drop");
    reveal_strlit("aggregation");
    reveal_strlit("if");
    reveal_strlit("exists");
    reveal_strlit("DROP");
    reveal_strlit("AGGREGATION");
    reveal_strlit("IF");
    reveal_strlit("EXISTS");
    assert(text::lower_ascii("IF"@) =~= "if"@);
    assert(text::lower_ascii("EXISTS"@) =~= "exists"@);
    let tail = there + seq![' '] + name;
    let longer = sure + seq![' '] + tail;
    assert(text::all_ascii(longer)) by {
        assert forall|i: int| 0 <= i < longer.len() implies (#[trigger] longer[i] as int) < 128 by {
            if i < sure.len() {
                assert(longer[i] == sure[i]);
            } else if i > sure.len() {
                let k = i - sure.len() - 1;
                assert(longer[i] == tail[k]);
                if k < there.len() {
                    assert(tail[k] == there[k]);
                } else if k > there.len() {
                    assert(tail[k] == name[k - there.len() - 1]);
                }
            }
        }
    }
    lemma_drop_reached(drop, kind, name);
    assert(longer.last() == name.last() && longer[0] == sure[0]);
    assert(!text::is_space(longer[0])) by {
        text::ascii_case_is_thirty_two_apart(sure[0]);
        assert(text::lower_ascii(sure)[0] == text::ascii_lower(sure[0]));
    }
    lemma_drop_reached(drop, kind, longer);
    text::lemma_trimmed_already(name);
    assert(!has_space(name));
    assert(after_keywords(name, "IF"@, "EXISTS"@) is None) by {
        reveal_with_fuel(text::trim_start, 2);
        assert(!text::is_space(name[0]));
    }
    assert(after_keywords(longer, "IF"@, "EXISTS"@) == Some(name)) by {
        reveal_with_fuel(text::trim_start, 2);
        assert(!text::is_space(tail[0])) by {
            assert(tail[0] == there[0]);
            text::ascii_case_is_thirty_two_apart(there[0]);
            assert(text::lower_ascii(there)[0] == text::ascii_lower(there[0]));
        }
        lemma_after_keyword(sure, "IF"@, tail);
        assert(!text::is_space(name[0]));
        lemma_after_keyword(there, "EXISTS"@, name);
    }
}

/// A text that differs from an ASCII one in case alone is itself ASCII.
proof fn lemma_keyword_ascii(said: Seq<char>, small: Seq<char>)
    requires
        text::lower_ascii(said) == small,
        small == "if"@ || small == "exists"@ || small == "drop"@ || small == "aggregation"@ || small == "create"@,
    ensures
        text::all_ascii(said),
        said.len() == small.len(),
{
    reveal_strlit("if");
    reveal_strlit("exists");
    reveal_strlit("drop");
    reveal_strlit("aggregation");
    reveal_strlit("create");
    assert(text::all_ascii(small));
    assert(text::lower_ascii(said).len() == said.len());
    assert forall|i: int| 0 <= i < said.len() implies (#[trigger] said[i] as int) < 128 by {
        assert(small[i] == text::ascii_lower(said[i]));
        text::ascii_case_is_thirty_two_apart(said[i]);
    }
}

proof fn lemma_after_keyword(said: Seq<char>, keyword: Seq<char>, rest: Seq<char>)
    requires
        text::lower_ascii(said) == text::lower_ascii(keyword),
        rest.len() > 0,
        !text::is_space(rest[0]),
    ensures
        after_keyword(said + seq![' '] + rest, keyword) == Some(rest),
{
    let s = said + seq![' '] + rest;
    let n = keyword.len() as int;
    assert(text::lower_ascii(said).len() == said.len() && text::lower_ascii(keyword).len() == keyword.len());
    assert(s.take(n) =~= said);
    assert(s.skip(n) =~= seq![' '] + rest);
    reveal_with_fuel(text::trim_start, 2);
    assert((seq![' '] + rest).drop_first() =~= rest);
}

proof fn lemma_drop_reached(drop: Seq<char>, kind: Seq<char>, rest: Seq<char>)
    requires
        text::lower_ascii(drop) == "drop"@,
        text::lower_ascii(kind) == "aggregation"@,
        rest.len() > 0,
        !text::is_space(rest[0]),
        !text::is_space(rest.last()),
        rest.last() != ';',
        text::all_ascii(rest),
    ensures
        written(drop + seq![' '] + (kind + seq![' '] + rest)) == drop_written(rest),
{
    lemma_keyword_ascii(drop, "drop"@);
    lemma_keyword_ascii(kind, "aggregation"@);
    reveal_strlit("drop");
    reveal_strlit("aggregation");
    reveal_strlit("DROP");
    reveal_strlit("AGGREGATION");
    reveal_strlit("SHOW AGGREGATIONS");
    let behind = kind + seq![' '] + rest;
    let sql = drop + seq![' '] + behind;
    assert(sql[0] == drop[0] && sql.last() == rest.last() && behind[0] == kind[0]);
    assert(text::lower_ascii(drop)[0] == text::ascii_lower(drop[0]));
    assert(text::lower_ascii(kind)[0] == text::ascii_lower(kind[0]));
    text::ascii_case_is_thirty_two_apart(drop[0]);
    text::ascii_case_is_thirty_two_apart(kind[0]);
    text::lemma_trimmed_already(sql);
    assert(text::without_trailing(sql, ';') == sql);
    assert(bare_statement(sql) == sql);
    assert(text::all_ascii(sql)) by {
        assert forall|i: int| 0 <= i < sql.len() implies (#[trigger] sql[i] as int) < 128 by {
            if i < drop.len() {
                assert(sql[i] == drop[i]);
            } else if i > drop.len() {
                let k = i - drop.len() - 1;
                assert(sql[i] == behind[k]);
                if k < kind.len() {
                    assert(behind[k] == kind[k]);
                } else if k > kind.len() {
                    assert(behind[k] == rest[k - kind.len() - 1]);
                }
            }
        }
    }
    assert(text::uppercase(sql)[0] == text::ascii_upper(sql[0]));
    assert("SHOW AGGREGATIONS"@[0] == 'S');
    assert(text::lower_ascii("DROP"@) =~= "drop"@);
    assert(text::lower_ascii("AGGREGATION"@) =~= "aggregation"@);
    reveal_with_fuel(text::trim_start, 2);
    lemma_after_keyword(drop, "DROP"@, behind);
    lemma_after_keyword(kind, "AGGREGATION"@, rest);
}

/// A statement that creates an aggregation names it first, says the language, and holds the source as it was
/// written, between the first and the last pair of dollar signs.
pub proof fn creations_are_read(name: Seq<char>, source: Seq<char>)
    requires
        name.len() > 0,
        forall|i: int| 0 <= i < name.len() ==> !text::is_space(#[trigger] name[i]) && name[i] != '$',
        text::all_ascii(name),
    ensures
        create_written(name + seq![' '] + ("LANGUAGE PYTHON AS "@ + ("$$"@ + source + "$$"@))) == Some(
            StatementView::Create(name, source),
        ),
        create_written(name) is None,
{
    reveal_strlit("LANGUAGE PYTHON AS ");
    reveal_strlit("LANGUAGE PYTHON AS");
    reveal_strlit("LANGUAGE PYTHON");
    reveal_strlit("$$");
    let cut = "$$"@;
    let says = "LANGUAGE PYTHON AS "@;
    let short = "LANGUAGE PYTHON AS"@;
    let rest = name + seq![' '] + (says + (cut + source + cut));
    let front = name + seq![' '] + says;
    let head = name + seq![' '] + short;
    let n = front.len() as int;
    assert(front =~= head.push(' '));
    assert forall|k: int| 0 <= k < n implies (#[trigger] front[k]) != '$' by {
        if k < name.len() {
            assert(front[k] == name[k]);
        } else if k > name.len() {
            assert(front[k] == says[k - name.len() - 1]);
        }
    }
    assert(rest =~= front + (cut + source + cut));
    text::lemma_first_from(rest, cut, 0);
    assert(text::stands_at(rest, cut, n)) by {
        assert(rest.subrange(n, n + 2) =~= cut);
    }
    assert forall|k: int| 0 <= k < n implies !#[trigger] text::stands_at(rest, cut, k) by {
        if text::stands_at(rest, cut, k) {
            assert(rest.subrange(k, k + 2)[0] == '$');
            assert(rest[k] == front[k]);
        }
    }
    assert(text::first_from(rest, cut, 0) == Some(n));
    assert(rest.take(n) =~= front);
    assert(rest.skip(n + 2) =~= source + cut);
    let body = source + cut;
    let end = source.len() as int;
    assert(text::last_at(body, cut) == Some(end)) by {
        reveal_with_fuel(text::last_before, 4);
        assert(body.subrange(end, end + 2) =~= cut);
        assert(text::stands_at(body, cut, end));
        assert(!text::stands_at(body, cut, end + 1));
        assert(!text::stands_at(body, cut, end + 2));
    }
    assert(body.take(end) =~= source);
    assert(head[0] == name[0] && head.last() == 'S');
    assert(text::trimmed(front) == head) by {
        reveal_with_fuel(text::trim_end, 3);
        reveal_with_fuel(text::trim_start, 2);
        assert(front.drop_last() =~= head);
    }
    text::white_space_parts_words(name, ' ', short);
    text::unbroken_text_is_a_word(name);
    assert(text::words(head)[0] == name);
    assert(text::all_ascii(head)) by {
        assert forall|i: int| 0 <= i < head.len() implies (#[trigger] head[i] as int) < 128 by {
            if i < name.len() {
                assert(head[i] == name[i]);
            } else if i > name.len() {
                assert(head[i] == short[i - name.len() - 1]);
            }
        }
    }
    let up = text::uppercase(head);
    let at = name.len() as int + 1;
    let python = "LANGUAGE PYTHON"@;
    assert(up.subrange(at, at + 15) =~= python) by {
        assert forall|k: int| 0 <= k < 15 implies #[trigger] up.subrange(at, at + 15)[k] == python[k] by {
            assert(up[at + k] == text::ascii_upper(head[at + k]));
            assert(head[at + k] == short[k]);
            assert(short[k] == python[k]);
        }
    }
    assert(text::stands_at(up, python, at));
    text::lemma_first_from(name, cut, 0);
    if let Some(k) = text::first_from(name, cut, 0) {
        assert(name.subrange(k, k + 2)[0] == '$');
        assert(name[k] == '$');
    }
}

/// What is left when an aggregation is forgotten is every aggregation of another name, in order.
pub proof fn forgotten_aggregations_are_gone(list: Seq<(Seq<char>, Seq<char>, bool)>, name: Seq<char>)
    ensures
        lists::picked_from(list, without_name(list, name), |a: (Seq<char>, Seq<char>, bool), c: (Seq<char>, Seq<char>, bool)| c == a
            && a.0 != name),
    decreases list.len(),
{
    let p = |a: (Seq<char>, Seq<char>, bool), c: (Seq<char>, Seq<char>, bool)| c == a && a.0 != name;
    if list.len() == 0 {
        lists::lemma_picked_none::<(Seq<char>, Seq<char>, bool), (Seq<char>, Seq<char>, bool)>(p);
        assert(list =~= Seq::empty());
    } else {
        forgotten_aggregations_are_gone(list.drop_last(), name);
        let earlier = without_name(list.drop_last(), name);
        let last = list.last();
        if last.0 != name {
            lists::lemma_picked_one(list, earlier, p, last);
        } else {
            lists::lemma_passed_over(list, earlier, p);
        }
    }
}

/// The aggregations that are stored are those whose documents are there and can be read, each as it was
/// read.
pub proof fn legible_documents_are_held(documents: Seq<Option<Seq<char>>>)
    ensures
        lists::picked_from(documents, held_in_all(documents), |d: Option<Seq<char>>, c: (Seq<char>, Seq<char>, bool)| d is Some
            && held_in(d->0) == Some(c)),
    decreases documents.len(),
{
    let p = |d: Option<Seq<char>>, c: (Seq<char>, Seq<char>, bool)| d is Some && held_in(d->0) == Some(c);
    if documents.len() == 0 {
        lists::lemma_picked_none::<Option<Seq<char>>, (Seq<char>, Seq<char>, bool)>(p);
        assert(documents =~= Seq::empty());
    } else {
        legible_documents_are_held(documents.drop_last());
        let earlier = held_in_all(documents.drop_last());
        let last = documents.last();
        if last is Some && held_in(last->0) is Some {
            lists::lemma_picked_one(documents, earlier, p, held_in(last->0)->0);
        } else {
            lists::lemma_passed_over(documents, earlier, p);
        }
    }
}

/// Aggregations are shown under their columns: the name, whether it composes, and the source.
pub proof fn aggregations_are_shown_by_name(list: Seq<(Seq<char>, Seq<char>, bool)>, i: int)
    requires
        0 <= i < list.len(),
    ensures
        ({
            let answer = shown(list);
            let row = answer.rows[i];
            &&& answer.rows.len() == list.len()
            &&& snapshots::under(answer.fields, row, "aggregation"@, Some(list[i].0))
            &&& snapshots::under(answer.fields, row, "source"@, Some(list[i].1))
            &&& list[i].2 ==> snapshots::under(answer.fields, row, "composes"@, Some("yes"@))
            &&& !list[i].2 ==> snapshots::under(answer.fields, row, "composes"@, Some("no"@))
        }),
{
    let fields = shown(list).fields;
    assert(fields[0].0 == "aggregation"@ && fields[1].0 == "composes"@ && fields[2].0 == "source"@);
}

/// An aggregation is declared exactly where the server accepts them and the name is free, and removed exactly
/// where it is there; by its own name, and with the source that was written.
pub proof fn aggregations_are_declared_where_accepted(
    name: Seq<char>,
    source: Seq<char>,
    if_exists: bool,
    accepted: bool,
    there: bool,
    list: Seq<(Seq<char>, Seq<char>, bool)>,
)
    ensures
        running(StatementView::Create(name, source), accepted, there, list) == RunningView::Declare(name, source)
            <==> accepted && !there,
        running(StatementView::Drop(name, if_exists), accepted, there, list) == RunningView::Remove(name) <==> there,
        running(StatementView::Drop(name, if_exists), accepted, there, list) is Answered && running(
            StatementView::Drop(name, if_exists),
            accepted,
            there,
            list,
        )->Answered_0 is Ok <==> !there && if_exists,
{
}

} // verus!
