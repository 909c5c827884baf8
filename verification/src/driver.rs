//! The statements a driver sends around a query.
//!
//! A driver opens a connection with a handful of statements it hardly thinks of as statements: a
//! setting, an application name, a transaction of one statement. Those that are true of a read
//! path are answered. Those whose meaning would have to be faked are refused, and say why.

use crate::text::{self, chars_of, contains, has_prefix, is_space_char, same, split_words, text_between, text_of, to_ascii_upper, to_upper, trim, trim_leading, trim_trailing};
use crate::wire::{self, completed, refusal, QueryFailure, QueryResult};
use vstd::prelude::*;

verus! {

/// How many quotes stand in a text.
pub open spec fn quotes(s: Seq<char>) -> nat
    decreases s.len(),
{
    if s.len() == 0 {
        0
    } else if s.last() == '\'' {
        quotes(s.drop_last()) + 1
    } else {
        quotes(s.drop_last())
    }
}

/// Whether the semicolon at a position ends a statement: nothing but white space and semicolons
/// follows it.
pub open spec fn ends_at(sql: Seq<char>, i: int) -> bool {
    sql[i] == ';' && forall|j: int| i < j < sql.len() ==> #[trigger] sql[j] == ';' || text::is_space(sql[j])
}

/// A statement with its literals blanked: each quote, and each character inside a literal, is a
/// blank, and so is each semicolon that ends the statement; the rest is in ASCII upper case. A
/// doubled quote inside a literal leaves the literal as it was.
pub open spec fn outside_literals(sql: Seq<char>) -> Seq<char> {
    Seq::new(
        sql.len(),
        |i: int|
            if sql[i] == '\'' || ends_at(sql, i) || quotes(sql.take(i)) % 2 == 1 {
                ' '
            } else {
                text::ascii_upper(sql[i])
            },
    )
}

/// The lock clause that begins at a word, if one does.
pub open spec fn lock_at(words: Seq<Seq<char>>, at: int) -> Option<Seq<char>> {
    if !(0 <= at < words.len()) || words[at] != "FOR"@ {
        None
    } else if at + 3 < words.len() && words[at + 1] == "NO"@ && words[at + 2] == "KEY"@ && words[at + 3] == "UPDATE"@ {
        Some("FOR NO KEY UPDATE"@)
    } else if at + 2 < words.len() && words[at + 1] == "KEY"@ && words[at + 2] == "SHARE"@ {
        Some("FOR KEY SHARE"@)
    } else if at + 1 < words.len() && words[at + 1] == "UPDATE"@ {
        Some("FOR UPDATE"@)
    } else if at + 1 < words.len() && words[at + 1] == "SHARE"@ {
        Some("FOR SHARE"@)
    } else {
        None
    }
}

/// The first lock clause among words.
pub open spec fn first_lock(words: Seq<Seq<char>>, from: int) -> Option<Seq<char>>
    decreases words.len() - from,
{
    if from >= words.len() {
        None
    } else if lock_at(words, from) is Some {
        lock_at(words, from)
    } else {
        first_lock(words, from + 1)
    }
}

/// The row-locking clause a statement carries, if it carries one.
pub open spec fn lock_in(sql: Seq<char>) -> Option<Seq<char>> {
    first_lock(text::words(outside_literals(sql)), 0)
}

fn blank_literals(sql: &str) -> (r: String)
    ensures
        r@ == outside_literals(sql@),
{
    let v = chars_of(sql);
    let mut end: usize = v.len();
    while end > 0 && (v[end - 1] == ';' || is_space_char(v[end - 1]))
        invariant
            end <= v@.len(),
            forall|j: int| end <= j < v@.len() ==> #[trigger] v@[j] == ';' || text::is_space(v@[j]),
        decreases end,
    {
        end = end - 1;
    }
    let mut out: Vec<char> = Vec::new();
    let mut in_literal = false;
    let mut i: usize = 0;
    while i < v.len()
        invariant
            i <= v@.len(),
            v@ == sql@,
            out@ == outside_literals(sql@).take(i as int),
            in_literal == (quotes(v@.take(i as int)) % 2 == 1),
            end <= v@.len(),
            forall|j: int| end <= j < v@.len() ==> #[trigger] v@[j] == ';' || text::is_space(v@[j]),
            end > 0 ==> v@[end - 1] != ';' && !text::is_space(v@[end - 1]),
        decreases v@.len() - i,
    {
        assert(v@.take(i + 1).drop_last() =~= v@.take(i as int));
        let c = v[i];
        assert(ends_at(v@, i as int) == (c == ';' && i >= end));
        if c == '\'' {
            in_literal = !in_literal;
            out.push(' ');
        } else if in_literal || (c == ';' && i >= end) {
            out.push(' ');
        } else {
            out.push(to_ascii_upper(c));
        }
        i = i + 1;
        assert(out@ =~= outside_literals(sql@).take(i as int));
    }
    assert(outside_literals(sql@).take(v@.len() as int) =~= outside_literals(sql@));
    text_of(&out)
}

/// The row-locking clause a statement carries, if it carries one. What stands in a literal is
/// never taken for one.
pub fn names_a_lock(sql: &str) -> (r: Option<&'static str>)
    ensures
        match r {
            Some(clause) => lock_in(sql@) == Some(clause@),
            None => lock_in(sql@) is None,
        },
{
    let w = split_words(blank_literals(sql).as_str());
    let ghost all = text::words(outside_literals(sql@));
    let mut at: usize = 0;
    while at < w.len()
        invariant
            at <= w@.len(),
            all == text::views(w@),
            lock_in(sql@) == first_lock(all, at as int),
        decreases w@.len() - at,
    {
        let left: usize = w.len() - at;
        if same(w[at].as_str(), "FOR") {
            if left > 3 && same(w[at + 1].as_str(), "NO") && same(w[at + 2].as_str(), "KEY") && same(
                w[at + 3].as_str(),
                "UPDATE",
            ) {
                return Some("FOR NO KEY UPDATE");
            }
            if left > 2 && same(w[at + 1].as_str(), "KEY") && same(w[at + 2].as_str(), "SHARE") {
                return Some("FOR KEY SHARE");
            }
            if left > 1 && same(w[at + 1].as_str(), "UPDATE") {
                return Some("FOR UPDATE");
            }
            if left > 1 && same(w[at + 1].as_str(), "SHARE") {
                return Some("FOR SHARE");
            }
        }
        at = at + 1;
    }
    None
}

/// A statement in upper case, without what ends it.
pub open spec fn compacted(sql: Seq<char>) -> Seq<char> {
    text::uppercase(text::trimmed(text::without_trailing(text::trimmed(sql), ';')))
}

/// The word at a position, or an empty one.
pub open spec fn word(words: Seq<Seq<char>>, at: int) -> Seq<char> {
    if 0 <= at < words.len() {
        words[at]
    } else {
        Seq::empty()
    }
}

/// How many double quotes stand in a text.
pub open spec fn double_quotes(s: Seq<char>) -> nat
    decreases s.len(),
{
    if s.len() == 0 {
        0
    } else if s.last() == '"' {
        double_quotes(s.drop_last()) + 1
    } else {
        double_quotes(s.drop_last())
    }
}

/// Whether an equals sign that is no part of a quoted name stands at a position.
pub open spec fn assigns_at(s: Seq<char>, i: int) -> bool {
    s[i] == '=' && double_quotes(s.take(i)) % 2 == 0
}

/// A text up to the first equals sign that is no part of a quoted name.
pub open spec fn before_equals(s: Seq<char>, from: int) -> Seq<char>
    decreases s.len() - from,
{
    if !(0 <= from < s.len()) {
        s
    } else if assigns_at(s, from) {
        s.take(from)
    } else {
        before_equals(s, from + 1)
    }
}

/// The name that a word of a `SET` or `RESET` holds: up to an equals sign, and without the equals
/// signs at its end and the quotes around it. An equals sign inside the quotes is part of the name.
pub open spec fn name_in(word: Seq<char>) -> Seq<char> {
    let name = text::without_trailing(before_equals(word, 0), '=');
    text::without_leading(text::without_trailing(name, '"'), '"')
}

/// The setting a `SET` or `RESET` names: in the word behind it, or behind `SESSION` or `LOCAL`.
pub open spec fn setting_named(words: Seq<Seq<char>>) -> Seq<char> {
    let at = if word(words, 1) == "SESSION"@ || word(words, 1) == "LOCAL"@ {
        2int
    } else {
        1
    };
    name_in(word(words, at))
}

/// Whether a statement asks for a promise that a read path cannot keep.
pub open spec fn promises_too_much(compact: Seq<char>) -> bool {
    text::holds(compact, "ISOLATION LEVEL"@) || text::begins_with(compact, "SET ROLE"@) || text::begins_with(
        compact,
        "SET LOCAL ROLE"@,
    ) || text::begins_with(compact, "SET SESSION AUTHORIZATION"@)
}

/// What is answered to a statement a driver sends around a query, or `None` where it is not one.
/// `compact` is the statement in upper case, `lock` the row-locking clause it carries.
pub open spec fn session_reply(compact: Seq<char>, lock: Option<Seq<char>>) -> Option<Result<wire::Answer, wire::Refusal>> {
    let first = word(text::words(compact), 0);
    let named = setting_named(text::words(compact));
    if promises_too_much(compact) {
        Some(
            Err(
                wire::refused(
                    "0A000"@,
                    "this server cannot honour that setting, and it is refused rather than accepted quietly. An isolation level is a claim about what concurrent statements may observe --- and here `BEGIN` is a no-op and every statement re-resolves its tables, so two reads inside one transaction may see two versions. `SET ROLE` is refused for the same reason in the other direction: an application that drops privilege before running untrusted SQL must not be told that it worked"@,
                ),
            ),
        )
    } else if (first == "SET"@ || first == "RESET"@) && named == "READ_AS_OF"@ {
        Some(
            Err(
                wire::refused(
                    "0A000"@,
                    "`"@ + named
                        + "` is not a setting this build honours, and it is refused rather than accepted quietly because it would change what a statement returns. A caller who asked to read one instant and was served the present would have no way to tell. Named snapshots are M17; see ADR-0019"@,
                ),
            ),
        )
    } else if lock is Some {
        Some(
            Err(
                wire::refused(
                    "0A000"@,
                    "`"@ + lock->0
                        + "` is refused rather than ignored. This server is a read path over a published warehouse and has no lock manager, so the clause could only ever be discarded --- and a statement whose whole purpose is mutual exclusion, answered with rows and no lock, is indistinguishable from one that worked"@,
                ),
            ),
        )
    } else if first == "BEGIN"@ || first == "START"@ {
        Some(Ok(wire::done("BEGIN"@)))
    } else if first == "COMMIT"@ || first == "END"@ {
        Some(Ok(wire::done("COMMIT"@)))
    } else if first == "SET"@ || first == "RESET"@ {
        Some(Ok(wire::done("SET"@)))
    } else if first == "DISCARD"@ {
        Some(Ok(wire::done("DISCARD ALL"@)))
    } else if first == "ROLLBACK"@ || first == "ABORT"@ {
        Some(
            Err(
                wire::refused(
                    "25P01"@,
                    "there is nothing to roll back: this server is a read path over a published warehouse, so a statement is its own transaction and nothing it has done can be undone. Answering `ROLLBACK` with success would be the one lie that matters"@,
                ),
            ),
        )
    } else {
        None
    }
}

fn up_to_equals(s: &str) -> (r: String)
    ensures
        r@ == before_equals(s@, 0),
{
    let v = chars_of(s);
    let mut quoted = false;
    let mut i: usize = 0;
    while i < v.len()
        invariant
            i <= v@.len(),
            v@ == s@,
            before_equals(s@, 0) == before_equals(s@, i as int),
            quoted == (double_quotes(v@.take(i as int)) % 2 == 1),
        decreases v@.len() - i,
    {
        assert(v@.take(i + 1).drop_last() =~= v@.take(i as int));
        if v[i] == '=' && !quoted {
            let name = text_between(&v, 0, i);
            assert(name@ =~= s@.take(i as int));
            return name;
        }
        if v[i] == '"' {
            quoted = !quoted;
        }
        i = i + 1;
    }
    s.to_string()
}

fn named_setting(w: &Vec<String>) -> (r: String)
    ensures
        r@ == setting_named(text::views(w@)),
{
    let at: usize = if w.len() > 1 && (same(w[1].as_str(), "SESSION") || same(w[1].as_str(), "LOCAL")) {
        2
    } else {
        1
    };
    proof {
        reveal_strlit("SESSION");
        reveal_strlit("LOCAL");
    }
    let whole = if at < w.len() {
        w[at].clone()
    } else {
        String::new()
    };
    let name = trim_trailing(up_to_equals(whole.as_str()).as_str(), '=');
    trim_leading(trim_trailing(name.as_str(), '"').as_str(), '"')
}

/// What is answered to a statement a driver sends around a query, the statement given in upper
/// case and without what ends it, together with the row-locking clause it carries.
pub fn session_answer(compact: &str, lock: Option<&str>) -> (r: Option<Result<QueryResult, QueryFailure>>)
    ensures
        wire::reply_if_any(r) == session_reply(
            compact@,
            match lock {
                Some(clause) => Some(clause@),
                None => None,
            },
        ),
{
    let w = split_words(compact);
    let first = if w.len() > 0 {
        w[0].clone()
    } else {
        String::new()
    };
    let f = first.as_str();
    if contains(compact, "ISOLATION LEVEL") || has_prefix(compact, "SET ROLE") || has_prefix(compact, "SET LOCAL ROLE")
        || has_prefix(compact, "SET SESSION AUTHORIZATION") {
        return Some(
            Err(
                refusal(
                    "0A000",
                    "this server cannot honour that setting, and it is refused rather than accepted quietly. An isolation level is a claim about what concurrent statements may observe --- and here `BEGIN` is a no-op and every statement re-resolves its tables, so two reads inside one transaction may see two versions. `SET ROLE` is refused for the same reason in the other direction: an application that drops privilege before running untrusted SQL must not be told that it worked",
                ),
            ),
        );
    }
    if same(f, "SET") || same(f, "RESET") {
        let named = named_setting(&w);
        if same(named.as_str(), "READ_AS_OF") {
            let mut message = "`".to_string();
            message.append(named.as_str());
            message.append(
                "` is not a setting this build honours, and it is refused rather than accepted quietly because it would change what a statement returns. A caller who asked to read one instant and was served the present would have no way to tell. Named snapshots are M17; see ADR-0019",
            );
            return Some(Err(refusal("0A000", message.as_str())));
        }
    }
    if let Some(clause) = lock {
        let mut message = "`".to_string();
        message.append(clause);
        message.append(
            "` is refused rather than ignored. This server is a read path over a published warehouse and has no lock manager, so the clause could only ever be discarded --- and a statement whose whole purpose is mutual exclusion, answered with rows and no lock, is indistinguishable from one that worked",
        );
        return Some(Err(refusal("0A000", message.as_str())));
    }
    if same(f, "BEGIN") || same(f, "START") {
        Some(Ok(completed("BEGIN")))
    } else if same(f, "COMMIT") || same(f, "END") {
        Some(Ok(completed("COMMIT")))
    } else if same(f, "SET") || same(f, "RESET") {
        Some(Ok(completed("SET")))
    } else if same(f, "DISCARD") {
        Some(Ok(completed("DISCARD ALL")))
    } else if same(f, "ROLLBACK") || same(f, "ABORT") {
        Some(
            Err(
                refusal(
                    "25P01",
                    "there is nothing to roll back: this server is a read path over a published warehouse, so a statement is its own transaction and nothing it has done can be undone. Answering `ROLLBACK` with success would be the one lie that matters",
                ),
            ),
        )
    } else {
        None
    }
}

/// What is answered to a statement a driver sends around a query, or `None` where it is not one.
///
/// A setting that would change what a statement returns is refused, never accepted and ignored;
/// so are a promise that cannot be kept, a lock that cannot be taken, and an undo.
pub fn run_session_statement(sql: &str) -> (r: Option<Result<QueryResult, QueryFailure>>)
    ensures
        wire::reply_if_any(r) == session_reply(compacted(sql@), lock_in(sql@)),
{
    let compact = to_upper(trim(trim_trailing(trim(sql).as_str(), ';').as_str()).as_str());
    session_answer(compact.as_str(), names_a_lock(sql))
}

/// Whether two statements are alike except for what stands inside their literals.
pub open spec fn alike_outside_literals(a: Seq<char>, b: Seq<char>) -> bool {
    &&& a.len() == b.len()
    &&& forall|i: int| 0 <= i < a.len() && quotes(#[trigger] a.take(i)) % 2 == 0 ==> a[i] == b[i]
    &&& forall|i: int| 0 <= i < a.len() ==> (#[trigger] a[i] == '\'' <==> b[i] == '\'')
}

/// What stands inside a literal decides nothing: two statements that differ only there carry the
/// same lock clause, or none.
pub proof fn literals_carry_no_lock(a: Seq<char>, b: Seq<char>)
    requires
        alike_outside_literals(a, b),
    ensures
        lock_in(a) == lock_in(b),
{
    assert forall|i: int| 0 <= i <= a.len() implies quotes(a.take(i)) == quotes(b.take(i)) by {
        lemma_same_quotes(a, b, i);
    }
    assert forall|i: int| 0 <= i < a.len() implies outside_literals(a)[i] == outside_literals(b)[i] by {
        assert(quotes(a.take(i)) == quotes(b.take(i)));
        if quotes(a.take(i)) % 2 == 0 {
            if ends_at(a, i) {
                lemma_same_end(a, b, i);
            }
            if ends_at(b, i) {
                lemma_same_end(b, a, i);
            }
        }
    }
    assert(outside_literals(a) =~= outside_literals(b));
}

/// What ends one statement outside a literal ends the other too: no quote follows it, so all that
/// follows stands outside a literal.
proof fn lemma_same_end(a: Seq<char>, b: Seq<char>, i: int)
    requires
        alike_outside_literals(a, b) || alike_outside_literals(b, a),
        0 <= i < a.len(),
        ends_at(a, i),
        quotes(a.take(i)) % 2 == 0,
        quotes(b.take(i)) % 2 == 0,
    ensures
        ends_at(b, i),
{
    assert forall|j: int| i <= j < a.len() implies #[trigger] b[j] == a[j] by {
        lemma_no_more_quotes(a, b, i, j);
    }
}

proof fn lemma_no_more_quotes(a: Seq<char>, b: Seq<char>, i: int, j: int)
    requires
        alike_outside_literals(a, b) || alike_outside_literals(b, a),
        0 <= i <= j < a.len(),
        ends_at(a, i),
        quotes(a.take(i)) % 2 == 0,
        quotes(b.take(i)) % 2 == 0,
    ensures
        quotes(a.take(j)) % 2 == 0,
        quotes(b.take(j)) % 2 == 0,
        a[j] == b[j],
    decreases j - i,
{
    if j > i {
        lemma_no_more_quotes(a, b, i, j - 1);
        assert(a.take(j).drop_last() =~= a.take(j - 1));
        assert(b.take(j).drop_last() =~= b.take(j - 1));
        assert(a[j - 1] != '\'');
    }
}

proof fn lemma_same_quotes(a: Seq<char>, b: Seq<char>, i: int)
    requires
        alike_outside_literals(a, b),
        0 <= i <= a.len(),
    ensures
        quotes(a.take(i)) == quotes(b.take(i)),
    decreases i,
{
    if i > 0 {
        lemma_same_quotes(a, b, i - 1);
        assert(a.take(i).drop_last() =~= a.take(i - 1));
        assert(b.take(i).drop_last() =~= b.take(i - 1));
        assert(a[i - 1] == '\'' <==> b[i - 1] == '\'');
    }
}

/// What stands between two quotation marks is left out of a statement, and what stands in front of them is kept,
/// in capitals.
pub proof fn literals_are_blanked(front: Seq<char>, literal: Seq<char>, behind: Seq<char>, i: int)
    requires
        !front.contains('\''),
        !literal.contains('\''),
        0 <= i <= front.len() + literal.len() + 1,
    ensures
        ({
            let sql = front + seq!['\''] + literal + seq!['\''] + behind;
            let kept = outside_literals(sql);
            &&& kept.len() == sql.len()
            &&& i < front.len() ==> kept[i] == text::ascii_upper(front[i])
            &&& i >= front.len() ==> kept[i] == ' '
        }),
{
    let sql = front + seq!['\''] + literal + seq!['\''] + behind;
    let n = front.len() as int;
    if i < n {
        assert(sql[i] == front[i]);
        lemma_unquoted_count(sql.take(i));
        assert(!ends_at(sql, i)) by {
            assert(sql[n] == '\'');
        }
        assert forall|k: int| 0 <= k < i implies sql.take(i)[k] != '\'' by {
            assert(sql.take(i)[k] == front[k]);
        }
        if sql.take(i).contains('\'') {
            let k = choose|k: int| 0 <= k < sql.take(i).len() && sql.take(i)[k] == '\'';
            assert(front[k] == '\'');
        }
        assert(front.contains(front[i]));
    } else if i > n && i <= n + literal.len() {
        let inside = literal.take(i - n - 1);
        lemma_unquoted_count(front);
        lemma_unquoted_count(inside);
        if inside.contains('\'') {
            let k = choose|k: int| 0 <= k < inside.len() && inside[k] == '\'';
            assert(literal[k] == '\'');
        }
        assert(sql.take(i) =~= front + seq!['\''] + inside);
        quotes_are_counted_together(front + seq!['\''], inside);
        quotes_are_counted_together(front, seq!['\'']);
        assert(quotes(seq!['\'']) == 1) by {
            reveal_with_fuel(quotes, 2);
            assert(seq!['\''].last() == '\'');
        }
    }
}

/// The quotation marks of two texts are those of the one and those of the other.
pub proof fn quotes_are_counted_together(a: Seq<char>, b: Seq<char>)
    ensures
        quotes(a + b) == quotes(a) + quotes(b),
    decreases b.len(),
{
    if b.len() == 0 {
        assert(a + b =~= a);
    } else {
        quotes_are_counted_together(a, b.drop_last());
        assert((a + b).drop_last() =~= a + b.drop_last());
        assert((a + b).last() == b.last());
    }
}

proof fn lemma_unquoted_count(s: Seq<char>)
    ensures
        !s.contains('\'') ==> quotes(s) == 0,
    decreases s.len(),
{
    if s.len() > 0 && !s.contains('\'') {
        let before = s.drop_last();
        assert(s[s.len() - 1] == s.last());
        assert(!before.contains('\'')) by {
            if before.contains('\'') {
                let k = choose|k: int| 0 <= k < before.len() && before[k] == '\'';
                assert(s[k] == '\'');
            }
        }
        lemma_unquoted_count(before);
    }
}

/// A lock is one of four clauses, each told by its words one behind the other.
pub proof fn locks_are_told_by_their_words(words: Seq<Seq<char>>, at: int)
    requires
        0 <= at,
    ensures
        lock_at(words, at) == Some("FOR UPDATE"@) <==> at + 1 < words.len() && words[at] == "FOR"@ && words[at + 1]
            == "UPDATE"@,
        lock_at(words, at) == Some("FOR SHARE"@) <==> at + 1 < words.len() && words[at] == "FOR"@ && words[at + 1]
            == "SHARE"@,
        lock_at(words, at) == Some("FOR KEY SHARE"@) <==> at + 2 < words.len() && words[at] == "FOR"@ && words[at + 1]
            == "KEY"@ && words[at + 2] == "SHARE"@,
        lock_at(words, at) == Some("FOR NO KEY UPDATE"@) <==> at + 3 < words.len() && words[at] == "FOR"@ && words[at + 1]
            == "NO"@ && words[at + 2] == "KEY"@ && words[at + 3] == "UPDATE"@,
        lock_at(words, at) is Some ==> {
            ||| lock_at(words, at) == Some("FOR UPDATE"@)
            ||| lock_at(words, at) == Some("FOR SHARE"@)
            ||| lock_at(words, at) == Some("FOR KEY SHARE"@)
            ||| lock_at(words, at) == Some("FOR NO KEY UPDATE"@)
        },
{
    reveal_strlit("FOR UPDATE");
    reveal_strlit("FOR SHARE");
    reveal_strlit("FOR KEY SHARE");
    reveal_strlit("FOR NO KEY UPDATE");
    reveal_strlit("UPDATE");
    reveal_strlit("SHARE");
    reveal_strlit("KEY");
    reveal_strlit("NO");
    assert("FOR UPDATE"@.len() == 10 && "FOR SHARE"@.len() == 9 && "FOR KEY SHARE"@.len() == 13
        && "FOR NO KEY UPDATE"@.len() == 17);
    assert("UPDATE"@.len() == 6 && "SHARE"@.len() == 5 && "KEY"@.len() == 3 && "NO"@.len() == 2);
}

/// The lock of a statement is the first that its words name, and it has none where they name none.
pub proof fn the_first_lock_is_named(words: Seq<Seq<char>>, from: int)
    requires
        0 <= from,
    ensures
        match first_lock(words, from) {
            Some(clause) => exists|at: int|
                from <= at < words.len() && #[trigger] lock_at(words, at) == Some(clause) && forall|k: int|
                    from <= k < at ==> #[trigger] lock_at(words, k) is None,
            None => forall|at: int| from <= at < words.len() ==> #[trigger] lock_at(words, at) is None,
        },
    decreases words.len() - from,
{
    if from < words.len() && lock_at(words, from) is None {
        the_first_lock_is_named(words, from + 1);
        if let Some(clause) = first_lock(words, from + 1) {
            let at = choose|at: int|
                from + 1 <= at < words.len() && #[trigger] lock_at(words, at) == Some(clause) && forall|k: int|
                    from + 1 <= k < at ==> #[trigger] lock_at(words, k) is None;
            assert forall|k: int| from <= k < at implies #[trigger] lock_at(words, k) is None by {
                if k > from {
                    assert(lock_at(words, k) is None);
                }
            }
        }
    } else if from < words.len() {
        assert(lock_at(words, from) == first_lock(words, from));
    }
}

/// A setting is named in front of its equals sign; a name in quotation marks may hold one.
pub proof fn settings_are_named_in_front(name: Seq<char>, value: Seq<char>)
    requires
        name.len() > 0,
        !name.contains('"'),
        !name.contains('='),
    ensures
        name_in(name + seq!['='] + value) == name,
        name_in(name) == name,
{
    let s = name + seq!['='] + value;
    assert(s.take(name.len() as int) =~= name);
    assert(name.take(name.len() as int) =~= name);
    assert(double_quotes(name) == 0) by {
        lemma_no_double_quotes(name);
    }
    assert(assigns_at(s, name.len() as int));
    assert forall|k: int| 0 <= k < name.len() implies !#[trigger] assigns_at(s, k) && !assigns_at(name, k) by {
        assert(name.contains(name[k]));
    }
    lemma_first_assignment(s, 0, name.len() as int);
    lemma_first_assignment(name, 0, name.len() as int);
    assert(name.contains(name.last())) by {
        assert(name[name.len() - 1] == name.last());
    }
    assert(name.contains(name[0]));
    reveal_with_fuel(text::without_trailing, 2);
    reveal_with_fuel(text::without_leading, 2);
}

proof fn lemma_no_double_quotes(s: Seq<char>)
    ensures
        !s.contains('"') ==> double_quotes(s) == 0,
    decreases s.len(),
{
    if s.len() > 0 && !s.contains('"') {
        let before = s.drop_last();
        assert(s[s.len() - 1] == s.last());
        assert(!before.contains('"')) by {
            if before.contains('"') {
                let k = choose|k: int| 0 <= k < before.len() && before[k] == '"';
                assert(s[k] == '"');
            }
        }
        lemma_no_double_quotes(before);
    }
}

proof fn lemma_first_assignment(s: Seq<char>, from: int, to: int)
    requires
        0 <= from <= to <= s.len(),
        forall|k: int| from <= k < to ==> !#[trigger] assigns_at(s, k),
        to == s.len() || assigns_at(s, to),
    ensures
        before_equals(s, from) == s.take(to),
    decreases to - from,
{
    if from < to {
        assert(!assigns_at(s, from));
        lemma_first_assignment(s, from + 1, to);
    } else if to == s.len() {
        assert(s.take(to) =~= s);
    }
}

/// A setting whose name stands in quotation marks is named by all that stands between them.
pub proof fn quoted_settings_are_named_whole(name: Seq<char>, value: Seq<char>)
    requires
        name.len() > 0,
        !name.contains('"'),
    ensures
        name_in(seq!['"'] + name + seq!['"'] + seq!['='] + value) == name,
{
    let quoted = seq!['"'] + name + seq!['"'];
    let s = quoted + seq!['='] + value;
    let n = quoted.len() as int;
    assert forall|k: int| 0 <= k < n implies !#[trigger] assigns_at(s, k) by {
        if 0 < k < n - 1 {
            let inside = name.take(k - 1);
            assert(s.take(k) =~= seq!['"'] + inside);
            lemma_one_more_double_quote(inside);
            lemma_no_double_quotes(inside);
            if inside.contains('"') {
                let j = choose|j: int| 0 <= j < inside.len() && inside[j] == '"';
                assert(name[j] == '"');
            }
        }
    }
    assert(s.take(n) =~= (seq!['"'] + name).push('"'));
    assert((seq!['"'] + name).push('"').drop_last() =~= seq!['"'] + name);
    lemma_one_more_double_quote(name);
    lemma_no_double_quotes(name);
    assert(assigns_at(s, n));
    lemma_first_assignment(s, 0, n);
    assert(s.take(n) =~= quoted);
    assert(name.contains(name.last())) by {
        assert(name[name.len() - 1] == name.last());
    }
    assert(name.contains(name[0]));
    reveal_with_fuel(text::without_trailing, 3);
    reveal_with_fuel(text::without_leading, 3);
    let front = seq!['"'] + name;
    assert(quoted.drop_last() =~= front);
    assert(front.last() == name.last());
    assert(front.drop_first() =~= name);
}

proof fn lemma_one_more_double_quote(s: Seq<char>)
    ensures
        double_quotes(seq!['"'] + s) == double_quotes(s) + 1,
    decreases s.len(),
{
    reveal_with_fuel(double_quotes, 2);
    let quoted = seq!['"'] + s;
    if s.len() == 0 {
        assert(quoted.drop_last() =~= Seq::empty());
        assert(quoted.last() == '"');
    } else {
        lemma_one_more_double_quote(s.drop_last());
        assert(quoted.drop_last() =~= seq!['"'] + s.drop_last());
        assert(quoted.last() == s.last());
    }
}

/// A session is told that it began, ended, set or discarded something by the word for it; it is told so falsely of
/// nothing: no lock, no roll-back and no promise that the server does not keep is acknowledged.
pub proof fn sessions_are_told_no_more_than_is_so(compact: Seq<char>, lock: Option<Seq<char>>)
    ensures
        ({
            let first = word(text::words(compact), 0);
            let reply = session_reply(compact, lock);
            &&& lock is Some ==> reply is Some && reply->0 is Err
            &&& text::holds(compact, "ISOLATION LEVEL"@) ==> reply is Some && reply->0 is Err
            &&& text::begins_with(compact, "SET ROLE"@) ==> reply is Some && reply->0 is Err
            &&& text::begins_with(compact, "SET LOCAL ROLE"@) ==> reply is Some && reply->0 is Err
            &&& text::begins_with(compact, "SET SESSION AUTHORIZATION"@) ==> reply is Some && reply->0 is Err
            &&& first == "ROLLBACK"@ || first == "ABORT"@ ==> reply is Some && reply->0 is Err
            &&& (first == "SET"@ || first == "RESET"@) && setting_named(text::words(compact)) == "READ_AS_OF"@
                ==> reply is Some && reply->0 is Err
            &&& reply is Some && reply->0 is Ok ==> {
                ||| (first == "BEGIN"@ || first == "START"@) && (reply->0->Ok_0).tag == "BEGIN"@
                ||| (first == "COMMIT"@ || first == "END"@) && (reply->0->Ok_0).tag == "COMMIT"@
                ||| (first == "SET"@ || first == "RESET"@) && (reply->0->Ok_0).tag == "SET"@
                ||| first == "DISCARD"@ && (reply->0->Ok_0).tag == "DISCARD ALL"@
            }
        }),
{
    lemma_session_words();
}

/// A statement that begins with none of the words of a session, locks nothing and promises nothing is left to the
/// engine; one that begins with a harmless word of a session is acknowledged.
pub proof fn sessions_answer_only_their_own_words(compact: Seq<char>)
    requires
        !text::holds(compact, "ISOLATION LEVEL"@),
        !text::begins_with(compact, "SET ROLE"@),
        !text::begins_with(compact, "SET LOCAL ROLE"@),
        !text::begins_with(compact, "SET SESSION AUTHORIZATION"@),
        setting_named(text::words(compact)) != "READ_AS_OF"@,
    ensures
        ({
            let first = word(text::words(compact), 0);
            let reply = session_reply(compact, None);
            &&& reply is None <==> first != "BEGIN"@ && first != "START"@ && first != "COMMIT"@ && first != "END"@
                && first
                != "SET"@ && first != "RESET"@ && first != "DISCARD"@ && first != "ROLLBACK"@ && first != "ABORT"@
            &&& reply is Some && reply->0 is Err <==> first == "ROLLBACK"@ || first == "ABORT"@
        }),
{
    lemma_session_words();
}

proof fn lemma_session_words()
    ensures
        "ROLLBACK"@ != "BEGIN"@ && "ROLLBACK"@ != "START"@ && "ROLLBACK"@ != "COMMIT"@ && "ROLLBACK"@ != "END"@
            && "ROLLBACK"@ != "SET"@ && "ROLLBACK"@ != "RESET"@ && "ROLLBACK"@ != "DISCARD"@,
        "ABORT"@ != "BEGIN"@ && "ABORT"@ != "START"@ && "ABORT"@ != "COMMIT"@ && "ABORT"@ != "END"@ && "ABORT"@ != "SET"@
            && "ABORT"@ != "RESET"@ && "ABORT"@ != "DISCARD"@,
{
    reveal_strlit("ROLLBACK");
    reveal_strlit("ABORT");
    reveal_strlit("BEGIN");
    reveal_strlit("START");
    reveal_strlit("COMMIT");
    reveal_strlit("END");
    reveal_strlit("SET");
    reveal_strlit("RESET");
    reveal_strlit("DISCARD");
    assert("ROLLBACK"@.len() == 8);
    assert("ABORT"@.len() == 5 && "ABORT"@[0] == 'A');
    assert("BEGIN"@.len() == 5 && "BEGIN"@[0] == 'B');
    assert("START"@.len() == 5 && "START"@[0] == 'S');
    assert("COMMIT"@.len() == 6 && "END"@.len() == 3 && "SET"@.len() == 3 && "DISCARD"@.len() == 7);
    assert("RESET"@.len() == 5 && "RESET"@[0] == 'R');
}

/// The setting a statement names is its second word, or its third where the second says for how long.
pub proof fn settings_are_named_second(first: Seq<char>, name: Seq<char>, rest: Seq<Seq<char>>)
    requires
        name.len() > 0,
        !name.contains('"'),
        !name.contains('='),
        name != "SESSION"@,
        name != "LOCAL"@,
    ensures
        setting_named(seq![first, name] + rest) == name,
        setting_named(seq![first, "SESSION"@, name] + rest) == name,
        setting_named(seq![first, "LOCAL"@, name] + rest) == name,
{
    settings_are_named_in_front(name, Seq::empty());
    assert((seq![first, name] + rest)[1] == name);
    assert((seq![first, "SESSION"@, name] + rest)[1] == "SESSION"@ && (seq![first, "SESSION"@, name] + rest)[2] == name);
    assert((seq![first, "LOCAL"@, name] + rest)[1] == "LOCAL"@ && (seq![first, "LOCAL"@, name] + rest)[2] == name);
}

} // verus!
