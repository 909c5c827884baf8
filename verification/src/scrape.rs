//! The endpoint that figures are read from: one route, and everything else is not found.

use crate::lists;
use crate::adopt::{self, full_name_of};
use crate::execute::TableName;
use crate::numerals::{self, decimal_text};
use crate::settings;
use crate::text::{self, chars_of, same, split_once, split_words, text_between};
use vstd::prelude::*;
use vstd::utf8::*;

verus! {

/// The largest request that is read. One for figures is a few dozen bytes, and an endless read on a
/// door that asks for no password would let anyone exhaust the server.
pub const MAX_REQUEST_BYTES: usize = 8192;

/// Whether a request line asks for exactly the one route. The target is held whole, never by its
/// beginning; a query string is allowed and ignored.
pub open spec fn asks_for_figures(line: Seq<char>) -> bool {
    let words = text::words(line);
    words.len() > 1 && words[0] == "GET"@ && (match text::split_at_first(words[1], '?') {
        Some((path, _)) => path == "/metrics"@,
        None => words[1] == "/metrics"@,
    })
}

/// Whether a request line asks for exactly the one route.
#[must_use]
pub fn is_metrics_request(line: &str) -> (r: bool)
    ensures
        r == asks_for_figures(line@),
{
    let words = split_words(line);
    assert(text::views(words@).len() == words@.len());
    if words.len() < 2 {
        return false;
    }
    assert(text::views(words@)[0] == words@[0]@);
    assert(text::views(words@)[1] == words@[1]@);
    if !same(words[0].as_str(), "GET") {
        return false;
    }
    match split_once(words[1].as_str(), '?') {
        Some((path, _)) => same(path.as_str(), "/metrics"),
        None => same(words[1].as_str(), "/metrics"),
    }
}

/// What a status is called.
pub open spec fn reason(status: u16) -> Seq<char> {
    if status == 200 {
        "OK"@
    } else if status == 404 {
        "Not Found"@
    } else {
        "Payload Too Large"@
    }
}

/// A whole response: the length it names is that of its body in bytes.
pub open spec fn response_text(status: u16, content_type: Seq<char>, body: Seq<char>) -> Seq<char> {
    "HTTP/1.1 "@ + numerals::decimal(status as nat) + " "@ + reason(status) + "\r\nContent-Type: "@ + content_type
        + "\r\nContent-Length: "@ + numerals::decimal(encode_utf8(body).len()) + "\r\nConnection: close\r\n\r\n"@ + body
}

/// A whole response, after which the connection is closed.
#[must_use]
pub fn response(status: u16, content_type: &str, body: &str) -> (r: Vec<u8>)
    ensures
        r@ == encode_utf8(response_text(status, content_type@, body@)),
{
    let mut r = "HTTP/1.1 ".to_string();
    r.append(decimal_text(status as u64).as_str());
    r.append(" ");
    if status == 200 {
        r.append("OK");
    } else if status == 404 {
        r.append("Not Found");
    } else {
        r.append("Payload Too Large");
    }
    r.append("\r\nContent-Type: ");
    r.append(content_type);
    r.append("\r\nContent-Length: ");
    let length: usize = body.as_bytes().len();
    r.append(decimal_text(length as u64).as_str());
    r.append("\r\nConnection: close\r\n\r\n");
    r.append(body);
    r.as_str().as_bytes_vec()
}

/// Whether the end of a request's head stands at a position.
pub open spec fn head_ends_at(bytes: Seq<u8>, i: int) -> bool {
    0 <= i && i + 4 <= bytes.len() && bytes[i] == 13 && bytes[i + 1] == 10 && bytes[i + 2] == 13 && bytes[i + 3] == 10
}

/// Whether a request's head is there.
pub open spec fn has_head(bytes: Seq<u8>) -> bool {
    exists|i: int| #[trigger] head_ends_at(bytes, i)
}

/// How far the reading of a request has come.
#[derive(Clone, Copy, PartialEq, Eq, Debug, Structural)]
pub enum Progress {
    /// Nothing more comes: nobody is answered.
    Gone,
    /// Its head is there.
    Complete,
    /// It is too large.
    TooLarge,
    /// More is read.
    More,
}

/// How far the reading of a request has come, where so many bytes were read last and so much has
/// been read in all.
pub fn progress(read: usize, buffer: &Vec<u8>) -> (r: Progress)
    ensures
        r == (if read == 0 {
            Progress::Gone
        } else if has_head(buffer@) {
            Progress::Complete
        } else if buffer@.len() > MAX_REQUEST_BYTES {
            Progress::TooLarge
        } else {
            Progress::More
        }),
{
    if read == 0 {
        return Progress::Gone;
    }
    let mut i: usize = 0;
    while i < buffer.len() && buffer.len() - i >= 4
        invariant
            read != 0,
            i <= buffer@.len(),
            forall|k: int| 0 <= k < i ==> !#[trigger] head_ends_at(buffer@, k),
        decreases buffer@.len() - i,
    {
        if buffer[i] == 13 && buffer[i + 1] == 10 && buffer[i + 2] == 13 && buffer[i + 3] == 10 {
            assert(head_ends_at(buffer@, i as int));
            return Progress::Complete;
        }
        i = i + 1;
    }
    assert forall|k: int| !#[trigger] head_ends_at(buffer@, k) by {}
    if buffer.len() > MAX_REQUEST_BYTES {
        Progress::TooLarge
    } else {
        Progress::More
    }
}

/// The first line of a text, without its end.
pub open spec fn first_line(s: Seq<char>) -> Seq<char> {
    match text::split_at_first(s, '\n') {
        Some((line, _)) => settings::without_last(line, '\r'),
        None => s,
    }
}

/// What a request is answered with, where its figures would be `figures`.
pub open spec fn answer_text(request: Seq<char>, figures: Seq<char>) -> Seq<char> {
    if asks_for_figures(first_line(request)) {
        response_text(200, "text/plain; version=0.0.4"@, figures)
    } else {
        response_text(404, "text/plain"@, "only GET /metrics is served here"@)
    }
}

/// What a request that is too large is answered with.
pub fn too_large() -> (r: Vec<u8>)
    ensures
        r@ == encode_utf8(response_text(413, "text/plain"@, "request too large"@)),
{
    response(413, "text/plain", "request too large")
}

/// What a request is answered with.
pub fn answer(request: &str, figures: &str) -> (r: Vec<u8>)
    ensures
        r@ == encode_utf8(answer_text(request@, figures@)),
{
    let asked = match split_once(request, '\n') {
        Some((line, _)) => {
            let v = chars_of(line.as_str());
            if v.len() > 0 && v[v.len() - 1] == '\r' {
                let cut = text_between(&v, 0, v.len() - 1);
                assert(cut@ =~= line@.drop_last());
                is_metrics_request(cut.as_str())
            } else {
                is_metrics_request(line.as_str())
            }
        },
        None => is_metrics_request(request),
    };
    if asked {
        response(200, "text/plain; version=0.0.4", figures)
    } else {
        response(404, "text/plain", "only GET /metrics is served here")
    }
}

/// What bytes read as, where what is not text is replaced.
pub uninterp spec fn lossy_form(bytes: Seq<u8>) -> Seq<char>;

/// Calls `String::from_utf8_lossy`: the same bytes give the same text, and bytes that are text give
/// just that text. Which characters stand in for bytes that are not is left unsaid.
#[verifier::external_body]
fn lossy_text(bytes: &Vec<u8>) -> (r: String)
    ensures
        r@ == lossy_form(bytes@),
        valid_utf8(bytes@) ==> encode_utf8(r@) == bytes@,
{
    String::from_utf8_lossy(bytes).into_owned()
}

/// What the bytes of a request are answered with.
pub fn respond(buffer: &Vec<u8>, figures: &str) -> (r: Vec<u8>)
    ensures
        r@ == encode_utf8(answer_text(lossy_form(buffer@), figures@)),
{
    let request = lossy_text(buffer);
    answer(request.as_str(), figures)
}

/// Only the one route is answered with figures, whatever else a request holds.
pub proof fn only_one_route_is_served(request: Seq<char>, figures: Seq<char>, others: Seq<char>)
    requires
        !asks_for_figures(first_line(request)),
    ensures
        answer_text(request, figures) == answer_text(request, others),
{
}

// --- figures ----------------------------------------------------------------------------------

/// How often the registry of figures refused one, by why.
pub struct Rejections {
    /// A label's value was not one it may have.
    pub value_not_permitted: u64,
    /// A label was not declared.
    pub label_not_declared: u64,
    /// A declared label was missing.
    pub label_missing: u64,
    /// There were too many values of a label.
    pub over_cap: u64,
}

/// The figures that are set afresh whenever they are asked for.
pub struct Gauges {
    /// The live files of each table whose log can be read, by its name.
    pub live_files: Vec<(String, u64)>,
    /// How often a figure was refused, by why.
    pub rejected: Vec<(&'static str, u64)>,
}

/// The live files of the tables whose logs can be read.
pub open spec fn gauged(tables: Seq<(TableName, Option<u64>)>) -> Seq<(Seq<char>, u64)>
    decreases tables.len(),
{
    if tables.len() == 0 {
        Seq::empty()
    } else {
        let before = gauged(tables.drop_last());
        match tables.last().1 {
            Some(files) => before.push((adopt::full_name(tables.last().0@), files)),
            None => before,
        }
    }
}

/// How often a figure was refused, by why.
pub open spec fn refusals_counted(rejections: Rejections) -> Seq<(Seq<char>, u64)> {
    seq![
        ("value_not_permitted"@, rejections.value_not_permitted),
        ("label_not_declared"@, rejections.label_not_declared),
        ("label_missing"@, rejections.label_missing),
        ("over_cap"@, rejections.over_cap),
    ]
}

/// The figures as they stand: `tables` says of each table how many live files it has, where its log
/// can be read.
pub fn refresh_table_gauges(tables: &Vec<(TableName, Option<u64>)>, rejections: &Rejections) -> (r: Gauges)
    ensures
        r.live_files@.map_values(|g: (String, u64)| (g.0@, g.1)) == gauged(tables@),
        r.rejected@.map_values(|g: (&'static str, u64)| (g.0@, g.1)) == refusals_counted(*rejections),
{
    let mut live_files: Vec<(String, u64)> = Vec::new();
    let mut i: usize = 0;
    assert(live_files@.map_values(|g: (String, u64)| (g.0@, g.1)) =~= Seq::empty());
    while i < tables.len()
        invariant
            i <= tables@.len(),
            live_files@.map_values(|g: (String, u64)| (g.0@, g.1)) == gauged(tables@.take(i as int)),
        decreases tables@.len() - i,
    {
        assert(tables@.take(i + 1).drop_last() =~= tables@.take(i as int));
        if let Some(files) = tables[i].1 {
            let name = full_name_of(&tables[i].0);
            let ghost was = live_files@;
            let ghost added = (name@, files);
            live_files.push((name, files));
            assert(live_files@.map_values(|g: (String, u64)| (g.0@, g.1)) =~= was.map_values(
                |g: (String, u64)| (g.0@, g.1),
            ).push(added));
        }
        i = i + 1;
    }
    assert(tables@.take(tables@.len() as int) =~= tables@);
    let mut rejected: Vec<(&'static str, u64)> = Vec::new();
    rejected.push(("value_not_permitted", rejections.value_not_permitted));
    rejected.push(("label_not_declared", rejections.label_not_declared));
    rejected.push(("label_missing", rejections.label_missing));
    rejected.push(("over_cap", rejections.over_cap));
    assert(rejected@.map_values(|g: (&'static str, u64)| (g.0@, g.1)) =~= refusals_counted(*rejections));
    Gauges { live_files, rejected }
}

/// A table whose log cannot be read has no figure, rather than that of an empty table.
pub proof fn unreadable_tables_have_no_figure(before: Seq<(TableName, Option<u64>)>, table: TableName)
    ensures
        gauged(before.push((table, None))) == gauged(before),
{
    assert(before.push((table, None)).drop_last() =~= before);
}

/// The figures are asked for by reading their path, with or without a query behind it, and by nothing else.
pub proof fn figures_are_read_at_their_path(method: Seq<char>, path: Seq<char>, rest: Seq<char>)
    requires
        method.len() > 0,
        path.len() > 0,
        forall|i: int| 0 <= i < method.len() ==> !text::is_space(#[trigger] method[i]),
        forall|i: int| 0 <= i < path.len() ==> !text::is_space(#[trigger] path[i]),
    ensures
        asks_for_figures(method + seq![' '] + path + seq![' '] + rest) <==> method == "GET"@ && (path == "/metrics"@
            || "/metrics?"@.is_prefix_of(path)),
        !asks_for_figures(method),
{
    reveal_strlit("/metrics");
    reveal_strlit("/metrics?");
    let front = method + seq![' '] + path;
    text::white_space_parts_words(front, ' ', rest);
    text::white_space_parts_words(method, ' ', path);
    text::unbroken_text_is_a_word(method);
    text::unbroken_text_is_a_word(path);
    let words = text::words(front + seq![' '] + rest);
    assert(words[0] == method && words[1] == path);
    text::lemma_split_at_first(path, '?');
    let plain = "/metrics"@;
    let asked = "/metrics?"@;
    assert(asked =~= plain + seq!['?']);
    assert(!plain.contains('?'));
    match text::split_at_first(path, '?') {
        Some((before, behind)) => {
            assert(path[before.len() as int] == '?');
            assert(path != plain) by {
                if path == plain {
                    assert(plain.contains(path[before.len() as int]));
                }
            }
            if before == plain {
                assert(path.take(9) =~= asked);
                assert(asked.is_prefix_of(path));
            }
            if asked.is_prefix_of(path) {
                let behind_it = path.skip(9);
                assert(path =~= plain + seq!['?'] + behind_it) by {
                    assert forall|k: int| 0 <= k < path.len() implies path[k] == (plain + seq!['?'] + behind_it)[k] by {
                        if k < 9 {
                            assert(path[k] == asked[k]);
                        }
                    }
                }
                text::lemma_cut_at_first(plain, behind_it, '?');
            }
        },
        None => {
            if asked.is_prefix_of(path) {
                assert(path[8] == asked[8]);
                assert(path.contains('?'));
            }
        },
    }
}

/// Each status the server gives is said in its own words.
pub proof fn statuses_are_said_apart()
    ensures
        reason(200) == "OK"@,
        reason(404) == "Not Found"@,
        reason(413) == "Payload Too Large"@,
{
}

/// A response gives its status first, says how many bytes its body has, and ends with the body behind an empty
/// line.
pub proof fn responses_measure_their_body(status: u16, content_type: Seq<char>, body: Seq<char>)
    ensures
        exists|kind: Seq<char>|
            response_text(status, content_type, body) == "HTTP/1.1 "@ + numerals::decimal(status as nat) + " "@ + kind
                + ("Content-Length: "@ + numerals::decimal(encode_utf8(body).len())
                + "\r\nConnection: close\r\n\r\n"@ + body) && #[trigger] text::holds(
                kind,
                "Content-Type: "@ + content_type + "\r\n"@,
            ),
{
    let said = reason(status);
    let field = "Content-Type: "@ + content_type + "\r\n"@;
    let kind = said + "\r\n"@ + field;
    lemma_header_breaks();
    let at = (said + "\r\n"@).len() as int;
    assert(kind =~= kind.take(at) + field + kind.skip(at + field.len()));
    text::found_needles_are_there(kind, field, at);
    assert(text::holds(kind, field));
    lemma_regrouped(
        "HTTP/1.1 "@ + numerals::decimal(status as nat) + " "@,
        said,
        "\r\n"@,
        "Content-Type: "@,
        content_type,
        "Content-Length: "@,
        numerals::decimal(encode_utf8(body).len()),
        "\r\nConnection: close\r\n\r\n"@,
        body,
    );
}

proof fn lemma_header_breaks()
    ensures
        "\r\nContent-Type: "@ == "\r\n"@ + "Content-Type: "@,
        "\r\nContent-Length: "@ == "\r\n"@ + "Content-Length: "@,
{
    reveal_strlit("\r\nContent-Type: ");
    reveal_strlit("\r\nContent-Length: ");
    reveal_strlit("\r\n");
    reveal_strlit("Content-Type: ");
    reveal_strlit("Content-Length: ");
    assert("\r\nContent-Type: "@ =~= "\r\n"@ + "Content-Type: "@);
    assert("\r\nContent-Length: "@ =~= "\r\n"@ + "Content-Length: "@);
}

proof fn lemma_regrouped(
    front: Seq<char>,
    said: Seq<char>,
    ends: Seq<char>,
    kind: Seq<char>,
    of: Seq<char>,
    length: Seq<char>,
    count: Seq<char>,
    close: Seq<char>,
    body: Seq<char>,
)
    ensures
        front + said + (ends + kind) + of + (ends + length) + count + close + body == front + (said + ends + (kind + of
            + ends)) + (length + count + close + body),
{
    assert(front + said + (ends + kind) + of + (ends + length) + count + close + body =~= front + (said + ends + (kind
        + of + ends)) + (length + count + close + body));
}

/// The first line of a request is what stands in front of its first line break, with or without a carriage
/// return.
pub proof fn first_lines_end_at_the_first_break(line: Seq<char>, rest: Seq<char>)
    requires
        !line.contains('\n'),
        line.len() > 0 ==> line.last() != '\r',
    ensures
        first_line(line + seq!['\n'] + rest) == line,
        first_line(line.push('\r') + seq!['\n'] + rest) == line,
        first_line(line) == line,
{
    text::lemma_cut_at_first(line, rest, '\n');
    assert(!line.push('\r').contains('\n')) by {
        if line.push('\r').contains('\n') {
            let k = choose|k: int| 0 <= k < line.push('\r').len() && line.push('\r')[k] == '\n';
            assert(line[k] == '\n');
        }
    }
    text::lemma_cut_at_first(line.push('\r'), rest, '\n');
    text::lemma_uncut(line, '\n');
    settings::only_the_last_character_goes(line, '\r');
}

/// Each table whose files could be counted has their number as its figure, under its full name.
pub proof fn counted_tables_have_a_figure(tables: Seq<(TableName, Option<u64>)>)
    ensures
        lists::picked_from(tables, gauged(tables), |t: (TableName, Option<u64>), g: (Seq<char>, u64)| t.1 == Some(g.1)
            && g.0 == adopt::full_name(t.0@)),
    decreases tables.len(),
{
    let p = |t: (TableName, Option<u64>), g: (Seq<char>, u64)| t.1 == Some(g.1) && g.0 == adopt::full_name(t.0@);
    if tables.len() == 0 {
        lists::lemma_picked_none::<(TableName, Option<u64>), (Seq<char>, u64)>(p);
        assert(tables =~= Seq::empty());
    } else {
        counted_tables_have_a_figure(tables.drop_last());
        let earlier = gauged(tables.drop_last());
        let last = tables.last();
        match last.1 {
            Some(files) => {
                lists::lemma_picked_one(tables, earlier, p, (adopt::full_name(last.0@), files));
            },
            None => {
                lists::lemma_passed_over(tables, earlier, p);
            },
        }
    }
}

/// Each way of being refused is counted under its own name.
pub proof fn refusals_are_counted_by_name(rejections: Rejections)
    ensures
        refusals_counted(rejections).len() == 4,
        refusals_counted(rejections).contains(("value_not_permitted"@, rejections.value_not_permitted)),
        refusals_counted(rejections).contains(("label_not_declared"@, rejections.label_not_declared)),
        refusals_counted(rejections).contains(("label_missing"@, rejections.label_missing)),
        refusals_counted(rejections).contains(("over_cap"@, rejections.over_cap)),
{
    let list = refusals_counted(rejections);
    assert(list[0] == ("value_not_permitted"@, rejections.value_not_permitted));
    assert(list[1] == ("label_not_declared"@, rejections.label_not_declared));
    assert(list[2] == ("label_missing"@, rejections.label_missing));
    assert(list[3] == ("over_cap"@, rejections.over_cap));
}

/// A request has its whole head exactly where an empty line stands in it.
pub proof fn heads_end_with_an_empty_line(bytes: Seq<u8>, before: Seq<u8>, behind: Seq<u8>)
    ensures
        has_head(before + seq![13u8, 10u8, 13u8, 10u8] + behind),
        has_head(bytes) ==> exists|i: int|
            0 <= i && i + 4 <= bytes.len() && #[trigger] bytes.subrange(i, i + 4) == seq![13u8, 10u8, 13u8, 10u8],
{
    let whole = before + seq![13u8, 10u8, 13u8, 10u8] + behind;
    let n = before.len() as int;
    assert(whole[n] == 13 && whole[n + 1] == 10 && whole[n + 2] == 13 && whole[n + 3] == 10);
    assert(head_ends_at(whole, n));
    if has_head(bytes) {
        let i = choose|i: int| #[trigger] head_ends_at(bytes, i);
        assert(bytes.subrange(i, i + 4) =~= seq![13u8, 10u8, 13u8, 10u8]);
    }
}

/// Whoever asks for the figures is given them, and everybody else is told that there is nothing else.
pub proof fn figures_are_given_to_who_asks(request: Seq<char>, figures: Seq<char>)
    ensures
        asks_for_figures(first_line(request)) ==> answer_text(request, figures) == response_text(
            200,
            "text/plain; version=0.0.4"@,
            figures,
        ),
        !asks_for_figures(first_line(request)) ==> answer_text(request, figures) == response_text(
            404,
            "text/plain"@,
            "only GET /metrics is served here"@,
        ),
{
}

} // verus!
