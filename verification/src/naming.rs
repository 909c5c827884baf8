//! One name across every naming domain.
//!
//! A table's place in storage bears the name of the table, so that its origin can be read off the
//! path. Most identifiers are valid path segments as they stand; the others are transformed into
//! something legible. Two tables that would share a path are refused, never told apart by a
//! generated suffix: a suffixed name is no longer the table's name.

use crate::text::{self, chars_of, debug_text, is_ascii_char, lowercase_char, same, text_of, to_ascii_lower};
use crate::textmap::TextMap;
use vstd::prelude::*;

verus! {

/// Segments no table may occupy: the names the storage formats and the system itself use, and
/// device names, because a local filesystem must work everywhere.
pub const RESERVED_SEGMENTS: [&'static str; 28] = [
    "_delta_log",
    "metadata",
    "data",
    "_sankhya",
    "_staging",
    "graveyard",
    "con",
    "prn",
    "aux",
    "nul",
    "com1",
    "com2",
    "com3",
    "com4",
    "com5",
    "com6",
    "com7",
    "com8",
    "com9",
    "lpt1",
    "lpt2",
    "lpt3",
    "lpt4",
    "lpt5",
    "lpt6",
    "lpt7",
    "lpt8",
    "lpt9",
];

/// The longest a segment may be.
pub const MAX_SEGMENT: usize = 63;

/// Whether a segment is one of the reserved ones.
pub open spec fn is_listed(segment: Seq<char>) -> bool {
    exists|i: int| 0 <= i < 28 && #[trigger] RESERVED_SEGMENTS@[i]@ == segment
}

/// Whether no table may occupy a segment: it is reserved, or it begins with an underscore or a
/// dot, which other engines take for hidden and skip.
pub open spec fn is_forbidden(segment: Seq<char>) -> bool {
    is_listed(segment) || segment.len() > 0 && (segment[0] == '_' || segment[0] == '.')
}

/// Whether a character may stand in a segment as it is.
pub open spec fn is_plain(c: char) -> bool {
    'a' <= c <= 'z' || '0' <= c <= '9' || c == '_'
}

/// Whether an identifier is a valid segment as it stands.
pub open spec fn is_safe(identifier: Seq<char>) -> bool {
    &&& 0 < identifier.len() <= MAX_SEGMENT
    &&& forall|i: int| 0 <= i < identifier.len() ==> is_plain(#[trigger] identifier[i])
    &&& !is_forbidden(identifier)
}

/// Whether no two dashes of a text stand together.
pub open spec fn dashes_apart(s: Seq<char>) -> bool {
    forall|i: int, j: int| 0 <= i && j == i + 1 && j < s.len() && #[trigger] s[i] == '-' ==> #[trigger] s[j] != '-'
}

/// Whether a text can stand in a path: short enough, visible to every reader, not reserved, and
/// made of small letters, digits, underscores and dashes, with no dash at either end and no two
/// together.
pub open spec fn is_segment(segment: Seq<char>) -> bool {
    &&& 0 < segment.len() <= MAX_SEGMENT
    &&& forall|i: int| 0 <= i < segment.len() ==> is_plain(#[trigger] segment[i]) || segment[i] == '-'
    &&& segment[0] != '-'
    &&& segment.last() != '-'
    &&& dashes_apart(segment)
    &&& !is_forbidden(segment)
}

/// A character in lower case: the small letter of an ASCII capital, and beyond ASCII the first
/// character of the lower-case form.
pub open spec fn lowered(c: char) -> char {
    if (c as int) < 128 {
        text::ascii_lower(c)
    } else if text::lowercase_form(c).len() > 0 {
        text::lowercase_form(c)[0]
    } else {
        c
    }
}

/// An identifier in lower case, with a dash for each run of characters that cannot stand as they
/// are.
pub open spec fn dashed(identifier: Seq<char>) -> Seq<char>
    decreases identifier.len(),
{
    if identifier.len() == 0 {
        Seq::empty()
    } else {
        let before = dashed(identifier.drop_last());
        let c = lowered(identifier.last());
        if is_plain(c) {
            before.push(c)
        } else if before.len() > 0 && before.last() == '-' {
            before
        } else {
            before.push('-')
        }
    }
}

/// A text that would be hidden from other engines, made visible.
pub open spec fn visible(s: Seq<char>) -> Seq<char> {
    if s.len() > 0 && s[0] == '_' {
        seq!['t'] + s
    } else {
        s
    }
}

/// The first characters of a text, as many as a segment may have.
pub open spec fn bounded(s: Seq<char>) -> Seq<char> {
    if s.len() > MAX_SEGMENT {
        s.take(MAX_SEGMENT as int)
    } else {
        s
    }
}

/// The segment an identifier is transformed into; empty where nothing legible is left.
pub open spec fn transformed(identifier: Seq<char>) -> Seq<char> {
    text::without_trailing(
        bounded(visible(text::without_leading(text::without_trailing(dashed(identifier), '-'), '-'))),
        '-',
    )
}

/// How much work mapping an identifier took.
#[derive(Clone, Copy, PartialEq, Eq, PartialOrd, Ord, Hash, Debug, Structural)]
pub enum NameClass {
    /// None: the identifier is the segment.
    Identity,
    /// The identifier was transformed, and must be recorded beside the data.
    Transformed,
}

/// A path segment.
#[derive(PartialEq, Eq, PartialOrd, Ord, Hash, Debug)]
pub struct PathSegment {
    text: String,
    class: NameClass,
}

impl View for PathSegment {
    type V = Seq<char>;

    closed spec fn view(&self) -> Seq<char> {
        self.text@
    }
}

impl Clone for PathSegment {
    fn clone(&self) -> (r: Self)
        ensures
            r@ == self@,
            r.kind() == self.kind(),
    {
        proof {
            use_type_invariant(self);
        }
        PathSegment { text: self.text.clone(), class: self.class }
    }
}

impl PathSegment {
    #[verifier::type_invariant]
    spec fn well_formed(self) -> bool {
        is_segment(self.text@)
    }

    /// How much work the mapping took.
    pub closed spec fn kind(self) -> NameClass {
        self.class
    }

    /// The segment. Every one can stand in a path.
    #[must_use]
    pub fn as_str(&self) -> (r: &str)
        ensures
            r@ == self@,
            is_segment(r@),
    {
        proof {
            use_type_invariant(self);
        }
        self.text.as_str()
    }

    /// How much work the mapping took.
    #[must_use]
    pub fn class(&self) -> (r: NameClass)
        ensures
            r == self.kind(),
    {
        self.class
    }

    /// Whether the segment is the identifier itself.
    #[must_use]
    pub fn is_identity(&self) -> (r: bool)
        ensures
            r == (self.kind() is Identity),
    {
        match self.class {
            NameClass::Identity => true,
            NameClass::Transformed => false,
        }
    }

    /// The segment, as text of its own.
    pub fn to_string(&self) -> (r: String)
        ensures
            r@ == self@,
    {
        self.text.clone()
    }
}

/// Why an identifier cannot become a path segment.
#[derive(PartialEq, Eq, Debug)]
pub enum NamingError {
    /// Nothing legible is left of it.
    Empty {
        /// The identifier.
        identifier: String,
    },
    /// The segment is one that no table may occupy.
    Reserved {
        /// The identifier.
        identifier: String,
        /// What it maps to.
        segment: String,
    },
    /// Two different tables map to one path.
    Collision {
        /// The table refused.
        identifier: String,
        /// The table that has the path.
        existing: String,
        /// The path.
        segment: String,
    },
}

impl NamingError {
    /// The message an error is reported with.
    pub open spec fn message(self) -> Seq<char> {
        match self {
            NamingError::Empty { identifier } => "identifier "@ + text::debug_form(identifier@)
                + " has no legible path representation; declare an explicit mapping or exclude the table"@,
            NamingError::Reserved { identifier, segment } => "identifier "@ + text::debug_form(identifier@) + " maps to "@
                + text::debug_form(segment@)
                + ", which SANKHYA reserves; rename it in the source or declare an explicit mapping"@,
            NamingError::Collision { identifier, existing, segment } => "identifier "@ + text::debug_form(identifier@)
                + " and "@ + text::debug_form(existing@) + " both map to "@ + text::debug_form(segment@)
                + ". SANKHYA will not disambiguate automatically, because a generated suffix destroys the naming relationship it exists to preserve. Rename one in the source, declare an explicit mapping, or exclude one"@,
        }
    }

    /// The error as a sentence.
    pub fn to_string(&self) -> (r: String)
        ensures
            r@ == self.message(),
    {
        let mut r = "identifier ".to_string();
        match self {
            NamingError::Empty { identifier } => {
                r.append(debug_text(identifier.as_str()).as_str());
                r.append(" has no legible path representation; declare an explicit mapping or exclude the table");
            },
            NamingError::Reserved { identifier, segment } => {
                r.append(debug_text(identifier.as_str()).as_str());
                r.append(" maps to ");
                r.append(debug_text(segment.as_str()).as_str());
                r.append(", which SANKHYA reserves; rename it in the source or declare an explicit mapping");
            },
            NamingError::Collision { identifier, existing, segment } => {
                r.append(debug_text(identifier.as_str()).as_str());
                r.append(" and ");
                r.append(debug_text(existing.as_str()).as_str());
                r.append(" both map to ");
                r.append(debug_text(segment.as_str()).as_str());
                r.append(
                    ". SANKHYA will not disambiguate automatically, because a generated suffix destroys the naming relationship it exists to preserve. Rename one in the source, declare an explicit mapping, or exclude one",
                );
            },
        }
        r
    }
}

/// What an identifier maps to, where it maps at all.
pub open spec fn segment_of(identifier: Seq<char>) -> Option<(Seq<char>, NameClass)> {
    if is_safe(identifier) {
        Some((identifier, NameClass::Identity))
    } else if transformed(identifier).len() > 0 && !is_forbidden(transformed(identifier)) {
        Some((transformed(identifier), NameClass::Transformed))
    } else {
        None
    }
}

/// Whether an error says why an identifier maps to nothing.
pub open spec fn explains(error: NamingError, name: Seq<char>) -> bool {
    match error {
        NamingError::Empty { identifier } => identifier@ == name && transformed(name).len() == 0,
        NamingError::Reserved { identifier, segment } => identifier@ == name && segment@ == transformed(name)
            && transformed(name).len() > 0,
        NamingError::Collision { .. } => false,
    }
}

fn lower_case(c: char) -> (r: char)
    ensures
        r == lowered(c),
{
    if is_ascii_char(c) {
        return to_ascii_lower(c);
    }
    let form = chars_of(lowercase_char(c).as_str());
    if form.len() > 0 {
        form[0]
    } else {
        c
    }
}

fn is_plain_char(c: char) -> (r: bool)
    ensures
        r == is_plain(c),
{
    ('a' <= c && c <= 'z') || ('0' <= c && c <= '9') || c == '_'
}

fn is_reserved(segment: &Vec<char>) -> (r: bool)
    ensures
        r == is_forbidden(segment@),
{
    let candidate = text_of(segment);
    let names = RESERVED_SEGMENTS;
    let mut i: usize = 0;
    while i < 28
        invariant
            i <= 28,
            names == RESERVED_SEGMENTS,
            candidate@ == segment@,
            forall|j: int| 0 <= j < i ==> #[trigger] RESERVED_SEGMENTS@[j]@ != segment@,
        decreases 28 - i,
    {
        if same(names[i], candidate.as_str()) {
            assert(RESERVED_SEGMENTS@[i as int]@ == segment@);
            return true;
        }
        i = i + 1;
    }
    segment.len() > 0 && (segment[0] == '_' || segment[0] == '.')
}

fn is_already_safe(identifier: &Vec<char>) -> (r: bool)
    ensures
        r == is_safe(identifier@),
{
    if identifier.len() == 0 || identifier.len() > MAX_SEGMENT {
        return false;
    }
    let mut i: usize = 0;
    while i < identifier.len()
        invariant
            i <= identifier@.len(),
            forall|j: int| 0 <= j < i ==> is_plain(#[trigger] identifier@[j]),
        decreases identifier@.len() - i,
    {
        if !is_plain_char(identifier[i]) {
            return false;
        }
        i = i + 1;
    }
    !is_reserved(identifier)
}

/// Every character of a text is one a segment may hold.
spec fn all_allowed(s: Seq<char>) -> bool {
    forall|i: int| 0 <= i < s.len() ==> is_plain(#[trigger] s[i]) || s[i] == '-'
}

proof fn lemma_dashed(identifier: Seq<char>)
    ensures
        all_allowed(dashed(identifier)),
        dashes_apart(dashed(identifier)),
    decreases identifier.len(),
{
    if identifier.len() > 0 {
        lemma_dashed(identifier.drop_last());
    }
}

proof fn lemma_without_last_dashes(s: Seq<char>)
    requires
        all_allowed(s),
        dashes_apart(s),
    ensures
        all_allowed(text::without_trailing(s, '-')),
        dashes_apart(text::without_trailing(s, '-')),
        text::without_trailing(s, '-').len() <= s.len(),
        text::without_trailing(s, '-').len() > 0 ==> text::without_trailing(s, '-').last() != '-' && text::without_trailing(s, '-')[0] == s[0],
    decreases s.len(),
{
    if s.len() > 0 && s.last() == '-' {
        lemma_without_last_dashes(s.drop_last());
    }
}

proof fn lemma_without_first_dashes(s: Seq<char>)
    requires
        all_allowed(s),
        dashes_apart(s),
    ensures
        all_allowed(text::without_leading(s, '-')),
        dashes_apart(text::without_leading(s, '-')),
        text::without_leading(s, '-').len() > 0 ==> text::without_leading(s, '-')[0] != '-',
    decreases s.len(),
{
    if s.len() > 0 && s[0] == '-' {
        lemma_without_first_dashes(s.drop_first());
    }
}

/// Whatever an identifier is transformed into can stand in a path, unless it is empty or reserved.
proof fn lemma_transformed(identifier: Seq<char>)
    ensures
        transformed(identifier).len() > 0 && !is_forbidden(transformed(identifier)) ==> is_segment(
            transformed(identifier),
        ),
{
    lemma_dashed(identifier);
    let a = text::without_trailing(dashed(identifier), '-');
    lemma_without_last_dashes(dashed(identifier));
    lemma_without_first_dashes(a);
    let b = text::without_leading(a, '-');
    assert(all_allowed(visible(b)));
    assert(dashes_apart(visible(b)));
    assert(dashes_apart(bounded(visible(b))));
    lemma_without_last_dashes(bounded(visible(b)));
}

fn cut_last_dashes(v: &mut Vec<char>)
    ensures
        final(v)@ == text::without_trailing(old(v)@, '-'),
{
    while v.len() > 0 && v[v.len() - 1] == '-'
        invariant
            text::without_trailing(v@, '-') == text::without_trailing(old(v)@, '-'),
        decreases v@.len(),
    {
        let ghost was = v@;
        v.pop();
        assert(v@ =~= was.drop_last());
    }
}

/// Lower the case, put a dash for each run of other characters, trim, make visible, and bound.
fn transform(identifier: &Vec<char>) -> (r: Vec<char>)
    ensures
        r@ == transformed(identifier@),
{
    let mut out: Vec<char> = Vec::new();
    let mut i: usize = 0;
    while i < identifier.len()
        invariant
            i <= identifier@.len(),
            out@ == dashed(identifier@.take(i as int)),
        decreases identifier@.len() - i,
    {
        assert(identifier@.take(i + 1).drop_last() =~= identifier@.take(i as int));
        let c = lower_case(identifier[i]);
        if is_plain_char(c) {
            out.push(c);
        } else if out.len() > 0 && out[out.len() - 1] == '-' {
        } else {
            out.push('-');
        }
        i = i + 1;
    }
    assert(identifier@.take(identifier@.len() as int) =~= identifier@);
    cut_last_dashes(&mut out);
    let ghost ended = out@;
    let mut from: usize = 0;
    assert(out@.skip(0) =~= out@);
    while from < out.len() && out[from] == '-'
        invariant
            from <= out@.len(),
            text::without_leading(out@.skip(from as int), '-') == text::without_leading(out@, '-'),
        decreases out@.len() - from,
    {
        assert(out@.skip(from as int).drop_first() =~= out@.skip(from + 1));
        from = from + 1;
    }
    let ghost trimmed = out@.skip(from as int);
    let mut r: Vec<char> = Vec::new();
    if from < out.len() && out[from] == '_' {
        r.push('t');
    }
    let ghost lead = r@;
    let mut k: usize = from;
    while k < out.len() && r.len() < MAX_SEGMENT
        invariant
            from <= k <= out@.len(),
            r@ == lead + out@.subrange(from as int, k as int),
            r@.len() <= MAX_SEGMENT,
            lead.len() <= 1,
        decreases out@.len() - k,
    {
        r.push(out[k]);
        k = k + 1;
        assert(r@ =~= lead + out@.subrange(from as int, k as int));
    }
    assert(visible(trimmed) =~= lead + trimmed);
    assert(r@ =~= bounded(visible(trimmed)));
    cut_last_dashes(&mut r);
    r
}

/// The path segment of a source identifier, or why it has none.
pub fn segment_for(identifier: &str) -> (r: Result<PathSegment, NamingError>)
    ensures
        match r {
            Ok(segment) => segment_of(identifier@) == Some((segment@, segment.kind())) && is_segment(segment@),
            Err(error) => segment_of(identifier@) is None && explains(error, identifier@),
        },
{
    let chars = chars_of(identifier);
    if is_already_safe(&chars) {
        let text = identifier.to_owned();
        assert(is_plain(text@[text@.len() - 1]));
        return Ok(PathSegment { text, class: NameClass::Identity });
    }
    let segment = transform(&chars);
    if segment.len() == 0 {
        return Err(NamingError::Empty { identifier: identifier.to_owned() });
    }
    if is_reserved(&segment) {
        return Err(NamingError::Reserved { identifier: identifier.to_owned(), segment: text_of(&segment) });
    }
    proof {
        lemma_transformed(identifier@);
    }
    Ok(PathSegment { text: text_of(&segment), class: NameClass::Transformed })
}

/// Any segment an identifier maps to can stand in a path; and it is the identifier exactly where
/// the mapping took no work.
pub proof fn segments_are_safe(identifier: Seq<char>)
    ensures
        segment_of(identifier) matches Some((segment, class)) ==> {
            &&& is_segment(segment)
            &&& class is Identity ==> segment == identifier
            &&& class is Transformed ==> !is_safe(identifier)
        },
{
    lemma_transformed(identifier);
    if is_safe(identifier) {
        assert(is_plain(identifier[identifier.len() - 1]));
    }
}

proof fn lemma_dashed_segment(s: Seq<char>)
    requires
        all_allowed(s),
        dashes_apart(s),
    ensures
        dashed(s) == s,
    decreases s.len(),
{
    if s.len() > 0 {
        let before = s.drop_last();
        assert(dashes_apart(before)) by {
            assert forall|i: int, j: int|
                0 <= i && j == i + 1 && j < before.len() && #[trigger] before[i] == '-' implies #[trigger] before[j]
                != '-' by {
                assert(s[i] == '-' ==> s[j] != '-');
            }
        }
        lemma_dashed_segment(before);
        let c = s.last();
        assert(lowered(c) == c);
        if c == '-' && before.len() > 0 {
            assert(s[s.len() - 2] == before.last());
            assert(s[s.len() - 1] == '-');
        }
        assert(before.push(c) =~= s);
    }
}

/// A segment maps to itself: what was mapped once is mapped for good.
pub proof fn segments_map_to_themselves(identifier: Seq<char>)
    ensures
        segment_of(identifier) matches Some((segment, _)) ==> (segment_of(segment) matches Some((again, _)) && again
            == segment),
{
    segments_are_safe(identifier);
    if let Some((segment, _)) = segment_of(identifier) {
        lemma_dashed_segment(segment);
        assert(transformed(segment) == segment);
    }
}

/// Where a table lives, and the names that put it there.
#[derive(PartialEq, Eq, Debug)]
pub struct TableLocation {
    /// The schema's name in the source.
    pub source_schema: String,
    /// The table's name in the source.
    pub source_table: String,
    /// The schema's segment.
    pub schema_segment: PathSegment,
    /// The table's segment.
    pub table_segment: PathSegment,
}

impl Clone for TableLocation {
    fn clone(&self) -> (r: Self)
        ensures
            r.source_schema == self.source_schema,
            r.source_table == self.source_table,
            r.schema_segment@ == self.schema_segment@,
            r.schema_segment.kind() == self.schema_segment.kind(),
            r.table_segment@ == self.table_segment@,
            r.table_segment.kind() == self.table_segment.kind(),
    {
        TableLocation {
            source_schema: self.source_schema.clone(),
            source_table: self.source_table.clone(),
            schema_segment: self.schema_segment.clone(),
            table_segment: self.table_segment.clone(),
        }
    }
}

impl TableLocation {
    /// The path relative to the warehouse root.
    pub open spec fn path(self) -> Seq<char> {
        self.schema_segment@ + "/"@ + self.table_segment@
    }

    /// The table's own name: schema, dot, table.
    pub open spec fn qualified(self) -> Seq<char> {
        self.source_schema@ + "."@ + self.source_table@
    }

    /// Whether a location is the one its names map to.
    pub open spec fn places(self, schema: Seq<char>, table: Seq<char>) -> bool {
        &&& self.source_schema@ == schema
        &&& self.source_table@ == table
        &&& segment_of(schema) == Some((self.schema_segment@, self.schema_segment.kind()))
        &&& segment_of(table) == Some((self.table_segment@, self.table_segment.kind()))
    }

    /// The place of a table, or why its schema's name, or else its own, maps to nothing.
    pub fn resolve(source_schema: &str, source_table: &str) -> (r: Result<Self, NamingError>)
        ensures
            match r {
                Ok(location) => location.places(source_schema@, source_table@),
                Err(error) => if segment_of(source_schema@) is None {
                    explains(error, source_schema@)
                } else {
                    segment_of(source_table@) is None && explains(error, source_table@)
                },
            },
    {
        match segment_for(source_schema) {
            Err(error) => Err(error),
            Ok(schema_segment) => match segment_for(source_table) {
                Err(error) => Err(error),
                Ok(table_segment) => Ok(
                    TableLocation {
                        source_schema: source_schema.to_owned(),
                        source_table: source_table.to_owned(),
                        schema_segment,
                        table_segment,
                    },
                ),
            },
        }
    }

    /// The path relative to the warehouse root.
    #[must_use]
    pub fn relative_path(&self) -> (r: String)
        ensures
            r@ == self.path(),
    {
        let mut r = self.schema_segment.to_string();
        r.append("/");
        r.append(self.table_segment.as_str());
        r
    }

    /// The table's own name: schema, dot, table.
    #[must_use]
    pub fn qualified_name(&self) -> (r: String)
        ensures
            r@ == self.qualified(),
    {
        let mut r = self.source_schema.clone();
        r.append(".");
        r.append(self.source_table.as_str());
        r
    }

    /// Whether both segments are the identifiers themselves.
    pub open spec fn relatable(self) -> bool {
        self.schema_segment.kind() is Identity && self.table_segment.kind() is Identity
    }

    /// Whether both segments are the identifiers themselves, so that the path explains itself.
    #[must_use]
    pub fn is_fully_relatable(&self) -> (r: bool)
        ensures
            r == self.relatable(),
    {
        self.schema_segment.is_identity() && self.table_segment.is_identity()
    }
}

/// The path of a table whose two segments are its names is those names with a slash between, so that
/// it tells where the table came from with nothing looked up.
pub proof fn relatable_paths_are_the_names(location: TableLocation, schema: Seq<char>, table: Seq<char>)
    requires
        location.places(schema, table),
        location.relatable(),
    ensures
        location.path() == schema + "/"@ + table,
{
}

/// The tables registered so far, each with the path it has. No two tables share one.
#[derive(Debug)]
pub struct CollisionCheck {
    seen: TextMap<(String, String)>,
}

impl View for CollisionCheck {
    type V = Map<Seq<char>, (Seq<char>, Seq<char>)>;

    closed spec fn view(&self) -> Map<Seq<char>, (Seq<char>, Seq<char>)> {
        self.seen@.map_values(|table: (String, String)| (table.0@, table.1@))
    }
}

impl Default for CollisionCheck {
    fn default() -> (r: Self)
        ensures
            r@ == Map::<Seq<char>, (Seq<char>, Seq<char>)>::empty(),
    {
        CollisionCheck::new()
    }
}

/// The tables registered after one more is offered: the path is taken by the table that had it, or
/// else by the one offered.
pub open spec fn registered(
    seen: Map<Seq<char>, (Seq<char>, Seq<char>)>,
    path: Seq<char>,
    table: (Seq<char>, Seq<char>),
) -> Map<Seq<char>, (Seq<char>, Seq<char>)> {
    if seen.contains_key(path) {
        seen
    } else {
        seen.insert(path, table)
    }
}

impl CollisionCheck {
    /// Nothing registered yet.
    #[must_use]
    pub fn new() -> (r: Self)
        ensures
            r@ == Map::<Seq<char>, (Seq<char>, Seq<char>)>::empty(),
    {
        let r = CollisionCheck { seen: TextMap::new() };
        assert(r@ =~= Map::<Seq<char>, (Seq<char>, Seq<char>)>::empty());
        r
    }

    /// Register a table under its path. A path that another table has is refused, and the error
    /// names both; a table that has the path already is no conflict.
    pub fn insert(&mut self, location: &TableLocation) -> (r: Result<(), NamingError>)
        ensures
            final(self)@ == registered(
                old(self)@,
                location.path(),
                (location.source_schema@, location.source_table@),
            ),
            match r {
                Ok(_) => final(self)@[location.path()] == (location.source_schema@, location.source_table@),
                Err(error) => {
                    &&& old(self)@.contains_key(location.path())
                    &&& old(self)@[location.path()] != (location.source_schema@, location.source_table@)
                    &&& error matches NamingError::Collision { identifier, existing, segment } && {
                        &&& identifier@ == location.qualified()
                        &&& existing@ == old(self)@[location.path()].0 + "."@ + old(self)@[location.path()].1
                        &&& segment@ == location.path()
                    }
                },
            },
    {
        let path = location.relative_path();
        if let Some(existing) = self.seen.get(path.as_str()) {
            if same(existing.0.as_str(), location.source_schema.as_str()) && same(
                existing.1.as_str(),
                location.source_table.as_str(),
            ) {
                return Ok(());
            }
            let mut other = existing.0.clone();
            other.append(".");
            other.append(existing.1.as_str());
            return Err(
                NamingError::Collision { identifier: location.qualified_name(), existing: other, segment: path },
            );
        }
        self.seen.insert(path, (location.source_schema.clone(), location.source_table.clone()));
        assert(self@ =~= old(self)@.insert(location.path(), (location.source_schema@, location.source_table@)));
        Ok(())
    }

    /// How many paths are taken.
    #[must_use]
    pub fn len(&self) -> (r: usize)
        ensures
            self@.dom().finite(),
            r == self@.dom().len(),
    {
        assert(self@.dom() =~= self.seen@.dom());
        self.seen.len()
    }

    /// Whether no path is taken.
    #[must_use]
    pub fn is_empty(&self) -> (r: bool)
        ensures
            r == (self@.dom() == Set::<Seq<char>>::empty()),
    {
        assert(self@.dom() =~= self.seen@.dom());
        let r = self.seen.is_empty();
        assert(self.seen@.dom() =~= Set::<Seq<char>>::empty() ==> self.seen@ =~= Map::empty());
        r
    }
}

/// Two tables share a path only where they share both segments: the slash between them stands in
/// neither.
pub proof fn paths_are_unambiguous(a: (Seq<char>, Seq<char>), b: (Seq<char>, Seq<char>))
    requires
        is_segment(a.0),
        is_segment(a.1),
        is_segment(b.0),
        is_segment(b.1),
        a.0 + "/"@ + a.1 == b.0 + "/"@ + b.1,
    ensures
        a == b,
{
    reveal_strlit("/");
    let p = a.0 + "/"@ + a.1;
    let q = b.0 + "/"@ + b.1;
    let i = a.0.len() as int;
    let k = b.0.len() as int;
    assert(p[i] == '/' && q[k] == '/');
    if i < k {
        assert(q[i] == b.0[i]);
    } else if k < i {
        assert(p[k] == a.0[k]);
    }
    assert(a.0 =~= p.take(i) && b.0 =~= q.take(i));
    assert(a.1 =~= p.skip(i + 1) && b.1 =~= q.skip(i + 1));
}

/// Registering a table again changes nothing, and a table refused once is refused again: what is
/// registered never depends on how often it was offered.
pub proof fn registering_twice_changes_nothing(
    seen: Map<Seq<char>, (Seq<char>, Seq<char>)>,
    path: Seq<char>,
    table: (Seq<char>, Seq<char>),
)
    ensures
        registered(registered(seen, path, table), path, table) == registered(seen, path, table),
{
}

/// Whether a character is a small letter, a digit or an underscore.
pub open spec fn is_small(c: char) -> bool {
    'a' <= c && c <= 'z' || '0' <= c && c <= '9' || c == '_'
}

/// A name of small letters, digits and underscores that is neither too long nor taken, and that does not begin
/// with an underscore, is its own segment; and only such a name is.
pub proof fn legible_names_stay_as_they_are(identifier: Seq<char>)
    ensures
        segment_of(identifier) == Some((identifier, NameClass::Identity)) <==> {
            &&& 0 < identifier.len() <= 63
            &&& forall|i: int| 0 <= i < identifier.len() ==> is_small(#[trigger] identifier[i])
            &&& identifier[0] != '_'
            &&& !is_listed(identifier)
        },
        segment_of(identifier) matches Some((segment, class)) ==> (class is Identity ==> segment == identifier),
{
    if 0 < identifier.len() && (forall|i: int| 0 <= i < identifier.len() ==> is_small(#[trigger] identifier[i])) {
        assert(is_small(identifier[0]));
        assert forall|i: int| 0 <= i < identifier.len() implies is_plain(#[trigger] identifier[i]) by {
            assert(is_small(identifier[i]));
        }
    }
    if is_safe(identifier) {
        assert forall|i: int| 0 <= i < identifier.len() implies is_small(#[trigger] identifier[i]) by {
            assert(is_plain(identifier[i]));
        }
    }
}

/// Every segment is short, of small letters, digits, underscores and dashes, begins with no dash, underscore or
/// dot, ends in no dash, holds no two dashes together, and is not taken.
pub proof fn segments_are_legible(identifier: Seq<char>)
    ensures
        segment_of(identifier) matches Some((segment, _)) ==> {
            &&& 0 < segment.len() <= 63
            &&& forall|i: int| 0 <= i < segment.len() ==> is_small(#[trigger] segment[i]) || segment[i] == '-'
            &&& segment[0] != '-' && segment[0] != '_' && segment[0] != '.'
            &&& segment.last() != '-'
            &&& forall|i: int, j: int|
                0 <= i && j == i + 1 && j < segment.len() ==> !(#[trigger] segment[i] == '-' && #[trigger] segment[j]
                    == '-')
            &&& !is_listed(segment)
        },
{
    segments_are_safe(identifier);
    if let Some((segment, _)) = segment_of(identifier) {
        assert forall|i: int| 0 <= i < segment.len() implies is_small(#[trigger] segment[i]) || segment[i] == '-' by {
            assert(is_plain(segment[i]) || segment[i] == '-');
        }
    }
}

/// The names that are taken are these.
pub proof fn taken_segments_are_these(segment: Seq<char>)
    ensures
        is_listed(segment) <==> segment == "_delta_log"@ || segment == "metadata"@ || segment == "data"@
            || segment == "_sankhya"@ || segment == "_staging"@ || segment == "graveyard"@ || segment == "con"@
            || segment == "prn"@ || segment == "aux"@ || segment == "nul"@ || segment == "com1"@ || segment == "com2"@
            || segment == "com3"@ || segment == "com4"@ || segment == "com5"@ || segment == "com6"@
            || segment == "com7"@ || segment == "com8"@ || segment == "com9"@ || segment == "lpt1"@
            || segment == "lpt2"@ || segment == "lpt3"@ || segment == "lpt4"@ || segment == "lpt5"@
            || segment == "lpt6"@ || segment == "lpt7"@ || segment == "lpt8"@ || segment == "lpt9"@,
{
    if is_listed(segment) {
        let i = choose|i: int| 0 <= i < 28 && #[trigger] RESERVED_SEGMENTS@[i]@ == segment;
    }
    assert(RESERVED_SEGMENTS@[0]@ == "_delta_log"@);
    assert(RESERVED_SEGMENTS@[1]@ == "metadata"@);
    assert(RESERVED_SEGMENTS@[2]@ == "data"@);
    assert(RESERVED_SEGMENTS@[3]@ == "_sankhya"@);
    assert(RESERVED_SEGMENTS@[4]@ == "_staging"@);
    assert(RESERVED_SEGMENTS@[5]@ == "graveyard"@);
    assert(RESERVED_SEGMENTS@[6]@ == "con"@);
    assert(RESERVED_SEGMENTS@[7]@ == "prn"@);
    assert(RESERVED_SEGMENTS@[8]@ == "aux"@);
    assert(RESERVED_SEGMENTS@[9]@ == "nul"@);
    assert(RESERVED_SEGMENTS@[10]@ == "com1"@);
    assert(RESERVED_SEGMENTS@[11]@ == "com2"@);
    assert(RESERVED_SEGMENTS@[12]@ == "com3"@);
    assert(RESERVED_SEGMENTS@[13]@ == "com4"@);
    assert(RESERVED_SEGMENTS@[14]@ == "com5"@);
    assert(RESERVED_SEGMENTS@[15]@ == "com6"@);
    assert(RESERVED_SEGMENTS@[16]@ == "com7"@);
    assert(RESERVED_SEGMENTS@[17]@ == "com8"@);
    assert(RESERVED_SEGMENTS@[18]@ == "com9"@);
    assert(RESERVED_SEGMENTS@[19]@ == "lpt1"@);
    assert(RESERVED_SEGMENTS@[20]@ == "lpt2"@);
    assert(RESERVED_SEGMENTS@[21]@ == "lpt3"@);
    assert(RESERVED_SEGMENTS@[22]@ == "lpt4"@);
    assert(RESERVED_SEGMENTS@[23]@ == "lpt5"@);
    assert(RESERVED_SEGMENTS@[24]@ == "lpt6"@);
    assert(RESERVED_SEGMENTS@[25]@ == "lpt7"@);
    assert(RESERVED_SEGMENTS@[26]@ == "lpt8"@);
    assert(RESERVED_SEGMENTS@[27]@ == "lpt9"@);
}

/// Letters and digits are put in small letters, and nothing else is done to them.
pub proof fn capitals_are_put_small(identifier: Seq<char>)
    requires
        0 < identifier.len() <= 63,
        forall|i: int|
            0 <= i < identifier.len() ==> 'a' <= #[trigger] identifier[i] <= 'z' || 'A' <= identifier[i] <= 'Z' || '0'
                <= identifier[i] <= '9',
    ensures
        transformed(identifier) == text::lower_ascii(identifier),
{
    lemma_dashed_letters(identifier);
    let low = text::lower_ascii(identifier);
    assert(low[0] == text::ascii_lower(identifier[0]));
    assert(low.last() == text::ascii_lower(identifier[identifier.len() - 1]));
    assert('a' <= identifier[0] <= 'z' || 'A' <= identifier[0] <= 'Z' || '0' <= identifier[0] <= '9');
    reveal_with_fuel(text::without_trailing, 2);
    reveal_with_fuel(text::without_leading, 2);
}

proof fn lemma_dashed_letters(s: Seq<char>)
    requires
        forall|i: int|
            0 <= i < s.len() ==> 'a' <= #[trigger] s[i] <= 'z' || 'A' <= s[i] <= 'Z' || '0' <= s[i] <= '9',
    ensures
        dashed(s) == text::lower_ascii(s),
    decreases s.len(),
{
    if s.len() > 0 {
        let before = s.drop_last();
        assert forall|i: int| 0 <= i < before.len() implies 'a' <= #[trigger] before[i] <= 'z' || 'A' <= before[i] <= 'Z'
            || '0' <= before[i] <= '9' by {
            assert(s[i] == before[i]);
        }
        lemma_dashed_letters(before);
        assert(s.last() == s[s.len() - 1]);
        assert(text::lower_ascii(s) =~= text::lower_ascii(before).push(text::ascii_lower(s.last())));
    }
}

/// What stands between two words and is no letter, digit or underscore becomes one dash, however much it is.
pub proof fn words_are_joined_by_a_dash(first: Seq<char>, between: Seq<char>, second: Seq<char>)
    requires
        first.len() > 0,
        between.len() > 0,
        second.len() > 0,
        first.len() + second.len() < 63,
        forall|i: int| 0 <= i < first.len() ==> 'a' <= #[trigger] first[i] <= 'z',
        forall|i: int| 0 <= i < second.len() ==> 'a' <= #[trigger] second[i] <= 'z',
        forall|i: int| 0 <= i < between.len() ==> #[trigger] between[i] == ' ' || between[i] == '-' || between[i] == '.',
    ensures
        transformed(first + between + second) == first + seq!['-'] + second,
{
    lemma_dashed_letters(first);
    assert(text::lower_ascii(first) =~= first);
    lemma_dashed_between(first, between);
    lemma_dashed_second(first + between, second);
    let whole = first + between + second;
    let made = first + seq!['-'] + second;
    assert(dashed(whole) =~= made) by {
        assert(dashed(whole) == first.push('-') + second);
        assert(first.push('-') + second =~= made);
    }
    assert(made[0] == first[0] && made.last() == second[second.len() - 1]);
    reveal_with_fuel(text::without_trailing, 2);
    reveal_with_fuel(text::without_leading, 2);
}

proof fn lemma_dashed_between(first: Seq<char>, between: Seq<char>)
    requires
        first.len() > 0,
        between.len() > 0,
        dashed(first) == first,
        first.last() != '-',
        forall|i: int| 0 <= i < between.len() ==> #[trigger] between[i] == ' ' || between[i] == '-' || between[i] == '.',
    ensures
        dashed(first + between) == first.push('-'),
    decreases between.len(),
{
    let s = first + between;
    assert(s.last() == between[between.len() - 1]);
    if between.len() == 1 {
        assert(s.drop_last() =~= first);
    } else {
        let fewer = between.drop_last();
        assert forall|i: int| 0 <= i < fewer.len() implies #[trigger] fewer[i] == ' ' || fewer[i] == '-'
            || fewer[i] == '.' by {
            assert(between[i] == fewer[i]);
        }
        lemma_dashed_between(first, fewer);
        assert(s.drop_last() =~= first + fewer);
    }
}

proof fn lemma_dashed_second(front: Seq<char>, second: Seq<char>)
    requires
        forall|i: int| 0 <= i < second.len() ==> 'a' <= #[trigger] second[i] <= 'z',
    ensures
        dashed(front + second) == dashed(front) + second,
    decreases second.len(),
{
    let s = front + second;
    if second.len() == 0 {
        assert(s =~= front);
        assert(dashed(front) + second =~= dashed(front));
    } else {
        let fewer = second.drop_last();
        assert forall|i: int| 0 <= i < fewer.len() implies 'a' <= #[trigger] fewer[i] <= 'z' by {
            assert(second[i] == fewer[i]);
        }
        lemma_dashed_second(front, fewer);
        assert(s.drop_last() =~= front + fewer);
        assert(s.last() == second[second.len() - 1]);
        assert(dashed(front) + second =~= (dashed(front) + fewer).push(second.last()));
    }
}

/// A path belongs to the first table that was registered for it, and no later one takes it away.
pub proof fn paths_stay_with_their_first_table(
    seen: Map<Seq<char>, (Seq<char>, Seq<char>)>,
    path: Seq<char>,
    table: (Seq<char>, Seq<char>),
    other: Seq<char>,
)
    ensures
        registered(seen, path, table).contains_key(path),
        !seen.contains_key(path) ==> registered(seen, path, table)[path] == table,
        seen.contains_key(other) ==> registered(seen, path, table).contains_key(other) && registered(
            seen,
            path,
            table,
        )[other] == seen[other],
        other != path ==> (registered(seen, path, table).contains_key(other) <==> seen.contains_key(other)),
{
}

/// A table goes by its schema and its own name, with a dot between, and lies at their segments, with a stroke between.
pub proof fn tables_go_by_both_names(location: TableLocation)
    ensures
        location.qualified() == location.source_schema@ + seq!['.'] + location.source_table@,
        location.path() == location.schema_segment@ + seq!['/'] + location.table_segment@,
{
    reveal_strlit(".");
    reveal_strlit("/");
    assert("."@ =~= seq!['.']);
    assert("/"@ =~= seq!['/']);
}

} // verus!
