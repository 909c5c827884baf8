//! Where the pieces meet: who a connection is, what a statement is, and what is said of both.

use crate::lists;
use crate::aggregations::{self, parse, Statement, StatementView};
use crate::config::Configuration;
use crate::cuboids::{SCOPE_PRIME, SCOPE_SEED};
use crate::driver::{self, run_session_statement};
use crate::execute::TableName;
use crate::policy::{self, Action, Effect, PolicySet, Rule, TenantId};
use crate::settings::Settings;
use crate::text::{self, chars_of, contains, has_prefix, join, same, split_once, to_upper, trim};
use crate::wire::{self, refusal, QueryFailure, QueryResult};
use crate::numerals::{self, decimal_text};
use vstd::prelude::*;

verus! {

/// How many rows one statement may return. The flow it is answered in cannot say that there are
/// more, so that reaching this is an error rather than a result cut short.
pub const MAX_RESULT_ROWS: usize = 10_000;

// --- who a connection is ----------------------------------------------------------------------

/// How a principal came to be believed.
#[derive(Clone, Copy, PartialEq, Eq, Debug, Structural)]
pub enum Authentication {
    /// By a password.
    Password,
    /// By nothing: the server asks for nothing.
    Internal,
}

/// The roles a user holds: where nobody is named everybody is a reader, and where somebody is, whoever
/// is not named holds none.
pub open spec fn roles_held(roles: Seq<(Seq<char>, Seq<Seq<char>>)>, user: Seq<char>) -> Seq<Seq<char>> {
    if roles.len() == 0 {
        seq!["reader"@]
    } else {
        roles_named_for(roles, user)
    }
}

/// The roles a user is named for.
pub open spec fn roles_named_for(roles: Seq<(Seq<char>, Seq<Seq<char>>)>, user: Seq<char>) -> Seq<Seq<char>>
    decreases roles.len(),
{
    if roles.len() == 0 {
        Seq::empty()
    } else if roles[0].0 == user {
        roles[0].1
    } else {
        roles_named_for(roles.skip(1), user)
    }
}

/// The roles a user acts with, and how they came to be believed.
pub fn principal(settings: &Settings, user: &str) -> (r: (Vec<String>, Authentication))
    ensures
        text::views(r.0@) == roles_held(settings@.roles, user@),
        r.1 == (if settings.require_password {
            Authentication::Password
        } else {
            Authentication::Internal
        }),
{
    let how = if settings.require_password {
        Authentication::Password
    } else {
        Authentication::Internal
    };
    let ghost all = settings@.roles;
    if settings.roles.len() == 0 {
        let mut held: Vec<String> = Vec::new();
        held.push("reader".to_string());
        assert(text::views(held@) =~= seq!["reader"@]);
        return (held, how);
    }
    let mut i: usize = 0;
    assert(all.skip(0) =~= all);
    while i < settings.roles.len()
        invariant
            i <= settings.roles@.len(),
            settings.roles@.len() > 0,
            all == settings@.roles,
            all.len() == settings.roles@.len(),
            how == (if settings.require_password {
                Authentication::Password
            } else {
                Authentication::Internal
            }),
            roles_named_for(all, user@) == roles_named_for(all.skip(i as int), user@),
        decreases settings.roles@.len() - i,
    {
        assert(all.skip(i as int).skip(1) =~= all.skip(i + 1));
        assert(all[i as int] == (settings.roles@[i as int].0@, text::views(settings.roles@[i as int].1@)));
        if same(settings.roles[i].0.as_str(), user) {
            return (text::copy_list(&settings.roles[i].1), how);
        }
        i = i + 1;
    }
    let none: Vec<String> = Vec::new();
    assert(text::views(none@) =~= Seq::empty());
    (none, how)
}

proof fn lemma_unnamed(roles: Seq<(Seq<char>, Seq<Seq<char>>)>, user: Seq<char>)
    requires
        forall|i: int| 0 <= i < roles.len() ==> (#[trigger] roles[i]).0 != user,
    ensures
        roles_named_for(roles, user) == Seq::<Seq<char>>::empty(),
    decreases roles.len(),
{
    if roles.len() > 0 {
        assert(roles[0].0 != user);
        assert forall|i: int| 0 <= i < roles.skip(1).len() implies (#[trigger] roles.skip(1)[i]).0 != user by {
            assert(roles[i + 1].0 != user);
        }
        lemma_unnamed(roles.skip(1), user);
    }
}

/// Once one user is named, whoever is not named holds no role: to add a user is a change somebody
/// notices, and to grant one in silence is not.
pub proof fn a_list_of_users_is_the_list(roles: Seq<(Seq<char>, Seq<Seq<char>>)>, user: Seq<char>)
    requires
        roles.len() > 0,
        forall|i: int| 0 <= i < roles.len() ==> (#[trigger] roles[i]).0 != user,
    ensures
        roles_held(roles, user).len() == 0,
{
    lemma_unnamed(roles, user);
}

/// The value of the first parameter of a name, or an empty one.
pub open spec fn parameter(parameters: Seq<(Seq<char>, Seq<char>)>, name: Seq<char>) -> Seq<char>
    decreases parameters.len(),
{
    if parameters.len() == 0 {
        Seq::empty()
    } else if parameters[0].0 == name {
        parameters[0].1
    } else {
        parameter(parameters.skip(1), name)
    }
}

fn find_parameter(parameters: &Vec<(String, String)>, name: &str) -> (r: String)
    ensures
        r@ == parameter(crate::config::pairs(parameters@), name@),
{
    let ghost all = crate::config::pairs(parameters@);
    let mut i: usize = 0;
    assert(all.skip(0) =~= all);
    while i < parameters.len()
        invariant
            i <= parameters@.len(),
            all == crate::config::pairs(parameters@),
            parameter(all, name@) == parameter(all.skip(i as int), name@),
        decreases parameters@.len() - i,
    {
        assert(all.skip(i as int).skip(1) =~= all.skip(i + 1));
        if same(parameters[i].0.as_str(), name) {
            return parameters[i].1.clone();
        }
        i = i + 1;
    }
    let r = String::new();
    assert(r@ =~= Seq::empty());
    r
}

/// Whether a connection is let in, and why not. A connection that names no user is refused, because
/// it could not be audited. A wrong password and an unknown user are refused alike, because to tell
/// them apart is to say who exists here.
pub open spec fn admitted(
    user: Seq<char>,
    require_password: bool,
    password_given: bool,
    any_credentials: bool,
    verified: bool,
    sqlstate: Seq<char>,
) -> Option<wire::Refusal> {
    if user.len() == 0 {
        Some(
            wire::refused(sqlstate, "no user was supplied; an unattributable connection cannot be audited"@),
        )
    } else if require_password && !password_given {
        Some(wire::refused(sqlstate, "a password is required"@))
    } else if any_credentials && !verified {
        Some(wire::refused(sqlstate, "password authentication failed for this user"@))
    } else {
        None
    }
}

/// Whether a connection is let in: `password` is what it gave, `verified` whether a credential of
/// the user it names was written down and agrees with that, and `sqlstate` the state of a refusal
/// to authenticate.
pub fn authenticate(
    settings: &Settings,
    parameters: &Vec<(String, String)>,
    password: Option<&Vec<u8>>,
    verified: bool,
    sqlstate: &str,
) -> (r: Result<(), QueryFailure>)
    ensures
        (match r {
            Ok(()) => None::<wire::Refusal>,
            Err(failure) => Some(failure@),
        }) == admitted(
            parameter(crate::config::pairs(parameters@), "user"@),
            settings.require_password,
            password matches Some(given) && given@.len() > 0,
            settings.credentials@.len() > 0,
            verified,
            sqlstate@,
        ),
{
    let user = find_parameter(parameters, "user");
    if user.as_str().is_empty() {
        return Err(
            refusal(sqlstate, "no user was supplied; an unattributable connection cannot be audited"),
        );
    }
    let given: bool = match password {
        Some(password) => password.len() > 0,
        None => false,
    };
    if settings.require_password && !given {
        return Err(refusal(sqlstate, "a password is required"));
    }
    if settings.credentials.len() == 0 {
        return Ok(());
    }
    if !verified {
        return Err(refusal(sqlstate, "password authentication failed for this user"));
    }
    Ok(())
}

/// A user who is not known and one whose password is wrong are answered alike, and neither is let
/// in where credentials are written down.
pub proof fn logins_tell_nobody_who_exists(
    known: Seq<char>,
    unknown: Seq<char>,
    require_password: bool,
    password_given: bool,
    sqlstate: Seq<char>,
)
    requires
        known.len() > 0,
        unknown.len() > 0,
    ensures
        admitted(known, require_password, password_given, true, false, sqlstate) == admitted(
            unknown,
            require_password,
            password_given,
            true,
            false,
            sqlstate,
        ),
        admitted(known, require_password, password_given, true, false, sqlstate) is Some,
{
}

// --- what is said of the server ----------------------------------------------------------------

/// What is said of how connections are let in. A server that checks nothing must look wrong in a
/// log.
pub open spec fn authentication_said(require_password: bool, credentials: nat) -> Seq<char> {
    if credentials > 0 {
        "password verified for "@ + numerals::decimal(credentials) + " user(s)"@
    } else if require_password {
        "PASSWORD UNVERIFIED — no credentials are configured, so any non-empty password is accepted from any user"@
    } else {
        "NO AUTHENTICATION — every connection is accepted"@
    }
}

/// How the server is configured, for a startup log.
pub fn describe(settings: &Settings, tenant: &str, rules: usize, tables: usize) -> (r: String)
    ensures
        r@ == "tenant "@ + tenant@ + ", "@ + authentication_said(
            settings.require_password,
            settings.credentials@.len(),
        ) + ", "@ + numerals::decimal(rules as nat) + " policy rule(s), "@ + numerals::decimal(tables as nat)
            + " table(s) known"@,
{
    let auth = if settings.credentials.len() > 0 {
        let mut said = "password verified for ".to_string();
        said.append(decimal_text(settings.credentials.len() as u64).as_str());
        said.append(" user(s)");
        said
    } else if settings.require_password {
        "PASSWORD UNVERIFIED — no credentials are configured, so any non-empty password is accepted from any user".to_string()
    } else {
        "NO AUTHENTICATION — every connection is accepted".to_string()
    };
    let mut r = "tenant ".to_string();
    r.append(tenant);
    r.append(", ");
    r.append(auth.as_str());
    r.append(", ");
    r.append(decimal_text(rules as u64).as_str());
    r.append(" policy rule(s), ");
    r.append(decimal_text(tables as u64).as_str());
    r.append(" table(s) known");
    r
}

/// What is said of each thing that could not be opened: where it lies and why.
pub open spec fn unopened(tables: Seq<(Seq<char>, Seq<char>)>) -> Seq<Seq<char>> {
    tables.map_values(|table: (Seq<char>, Seq<char>)| table.0 + ": "@ + table.1)
}

fn say_unopened(tables: &Vec<(String, String)>, complaints: &mut Vec<String>)
    ensures
        text::views(final(complaints)@) == text::views(old(complaints)@) + unopened(
            crate::config::pairs(tables@),
        ),
{
    let ghost was = text::views(complaints@);
    let ghost more = unopened(crate::config::pairs(tables@));
    let mut i: usize = 0;
    assert(was + more.take(0) =~= was);
    while i < tables.len()
        invariant
            i <= tables@.len(),
            more == unopened(crate::config::pairs(tables@)),
            text::views(complaints@) == was + more.take(i as int),
        decreases tables@.len() - i,
    {
        let mut said = tables[i].0.clone();
        said.append(": ");
        said.append(tables[i].1.as_str());
        assert(said@ == more[i as int]);
        let ghost before = complaints@;
        let ghost added = said@;
        complaints.push(said);
        assert(text::views(complaints@) =~= text::views(before).push(added));
        assert(was + more.take(i + 1) =~= (was + more.take(i as int)).push(added));
        i = i + 1;
    }
    assert(more.take(more.len() as int) =~= more);
}

/// What is complained of at startup: the tables that could not be found, those that could not be
/// read, then what could not be adopted. A server that starts with three tables of four and says
/// nothing looks as though the fourth had never been.
pub fn startup_complaints(
    unopenable: &Vec<(String, String)>,
    unreadable: &Vec<(String, String)>,
    unadopted: Vec<String>,
) -> (r: Vec<String>)
    ensures
        text::views(r@) == unopened(crate::config::pairs(unopenable@)) + unopened(
            crate::config::pairs(unreadable@),
        ) + text::views(unadopted@),
{
    let mut r: Vec<String> = Vec::new();
    assert(text::views(r@) =~= Seq::empty());
    say_unopened(unopenable, &mut r);
    assert(text::views(r@) =~= unopened(crate::config::pairs(unopenable@)));
    say_unopened(unreadable, &mut r);
    let ghost tables = text::views(r@);
    let ghost more = text::views(unadopted@);
    let mut i: usize = 0;
    assert(tables + more.take(0) =~= tables);
    while i < unadopted.len()
        invariant
            i <= unadopted@.len(),
            more == text::views(unadopted@),
            text::views(r@) == tables + more.take(i as int),
        decreases unadopted@.len() - i,
    {
        let ghost before = r@;
        r.push(unadopted[i].clone());
        assert(text::views(r@) =~= text::views(before).push(more[i as int]));
        assert(tables + more.take(i + 1) =~= (tables + more.take(i as int)).push(more[i as int]));
        i = i + 1;
    }
    assert(more.take(more.len() as int) =~= more);
    r
}

/// A definition as it was validated: adopted, or why not.
pub struct Validated {
    /// Its name.
    pub name: String,
    /// Why it was rejected; nothing where it was adopted.
    pub rejections: Vec<String>,
}

/// What is complained of definitions of a kind, and which are adopted: a broken one stops neither
/// the server nor the others.
pub open spec fn rejected(kind: Seq<char>, definitions: Seq<Validated>) -> Seq<Seq<char>>
    decreases definitions.len(),
{
    if definitions.len() == 0 {
        Seq::empty()
    } else {
        let before = rejected(kind, definitions.drop_last());
        let last = definitions.last();
        if last.rejections@.len() == 0 {
            before
        } else {
            before.push(
                "the "@ + kind + " `"@ + last.name@ + "`: "@ + text::joined(text::views(last.rejections@), "; "@),
            )
        }
    }
}

/// The places of the definitions that are adopted.
pub open spec fn adopted(definitions: Seq<Validated>) -> Seq<int>
    decreases definitions.len(),
{
    if definitions.len() == 0 {
        Seq::empty()
    } else {
        let before = adopted(definitions.drop_last());
        if definitions.last().rejections@.len() == 0 {
            before.push(definitions.len() - 1)
        } else {
            before
        }
    }
}

/// The definitions of a kind that are adopted, by their places, and what is complained of the rest;
/// `unloaded` says why they could not be loaded at all, where they could not.
pub fn adopting(kind: &str, unloaded: Option<String>, definitions: &Vec<Validated>) -> (r: (Vec<usize>, Vec<String>))
    ensures
        r.0@.map_values(|i: usize| i as int) == adopted(definitions@),
        text::views(r.1@) == (match unloaded {
            Some(why) => seq![why@],
            None => Seq::empty(),
        }) + rejected(kind@, definitions@),
{
    let mut places: Vec<usize> = Vec::new();
    let mut complaints: Vec<String> = Vec::new();
    assert(text::views(complaints@) =~= Seq::empty());
    if let Some(why) = unloaded {
        let ghost said = why@;
        complaints.push(why);
        assert(text::views(complaints@) =~= seq![said]);
    }
    let ghost first = text::views(complaints@);
    let mut i: usize = 0;
    assert(places@.map_values(|i: usize| i as int) =~= Seq::empty());
    assert(first + rejected(kind@, definitions@.take(0)) =~= first);
    while i < definitions.len()
        invariant
            i <= definitions@.len(),
            places@.map_values(|i: usize| i as int) == adopted(definitions@.take(i as int)),
            text::views(complaints@) == first + rejected(kind@, definitions@.take(i as int)),
        decreases definitions@.len() - i,
    {
        assert(definitions@.take(i + 1).drop_last() =~= definitions@.take(i as int));
        if definitions[i].rejections.len() == 0 {
            let ghost was = places@;
            places.push(i);
            assert(places@.map_values(|i: usize| i as int) =~= was.map_values(|i: usize| i as int).push(i as int));
        } else {
            let mut said = "the ".to_string();
            said.append(kind);
            said.append(" `");
            said.append(definitions[i].name.as_str());
            said.append("`: ");
            said.append(join(&definitions[i].rejections, "; ").as_str());
            let ghost was = complaints@;
            let ghost added = said@;
            complaints.push(said);
            assert(text::views(complaints@) =~= text::views(was).push(added));
            assert(first + rejected(kind@, definitions@.take(i + 1)) =~= (first + rejected(
                kind@,
                definitions@.take(i as int),
            )).push(added));
        }
        i = i + 1;
    }
    assert(definitions@.take(definitions@.len() as int) =~= definitions@);
    (places, complaints)
}

// --- what a policy grants ----------------------------------------------------------------------

/// A rule that lets every reader read a table.
pub open spec fn reader_rule(tenant: TenantId, table: (Seq<char>, Seq<char>)) -> policy::RuleView {
    policy::RuleView {
        tenant,
        role: "reader"@,
        table,
        action: Action::Read,
        effect: Effect::Grant,
        predicate: None,
        masks: Seq::empty(),
    }
}

/// A policy that lets every reader read every one of some tables.
pub fn permissive_policy(tenant: TenantId, tables: &Vec<TableName>) -> (r: PolicySet)
    ensures
        r@ == tables@.map_values(|table: TableName| reader_rule(tenant, table@)),
{
    let ghost expected = tables@.map_values(|table: TableName| reader_rule(tenant, table@));
    let mut r = PolicySet::new();
    let mut i: usize = 0;
    assert(expected.take(0) =~= Seq::empty());
    while i < tables.len()
        invariant
            i <= tables@.len(),
            expected == tables@.map_values(|table: TableName| reader_rule(tenant, table@)),
            r@ == expected.take(i as int),
        decreases tables@.len() - i,
    {
        let rule = Rule {
            tenant,
            role: "reader".to_string(),
            table: tables[i].clone(),
            action: Action::Read,
            effect: Effect::Grant,
            predicate: None,
            masks: Vec::new(),
        };
        assert(rule@ =~= expected[i as int]);
        r = r.with(rule);
        assert(expected.take(i + 1) =~= expected.take(i as int).push(expected[i as int]));
        i = i + 1;
    }
    assert(expected.take(expected.len() as int) =~= expected);
    r
}

/// Whether a list names a table.
pub open spec fn lists(list: Seq<(Seq<char>, Seq<char>)>, table: (Seq<char>, Seq<char>)) -> bool {
    list.contains(table)
}

fn is_listed(list: &Vec<TableName>, table: &TableName) -> (r: bool)
    ensures
        r == lists(list@.map_values(|t: TableName| t@), table@),
{
    let ghost all = list@.map_values(|t: TableName| t@);
    let mut i: usize = 0;
    while i < list.len()
        invariant
            i <= list@.len(),
            all == list@.map_values(|t: TableName| t@),
            forall|k: int| 0 <= k < i ==> #[trigger] all[k] != table@,
        decreases list@.len() - i,
    {
        assert(all[i as int] == list@[i as int]@);
        if same(list[i].schema.as_str(), table.schema.as_str()) && same(
            list[i].table.as_str(),
            table.table.as_str(),
        ) {
            assert(all[i as int] == table@);
            return true;
        }
        i = i + 1;
    }
    false
}

/// The places of the tables that a list names.
pub open spec fn listed(tables: Seq<(Seq<char>, Seq<char>)>, visible: Seq<(Seq<char>, Seq<char>)>) -> Seq<int>
    decreases tables.len(),
{
    if tables.len() == 0 {
        Seq::empty()
    } else {
        let before = listed(tables.drop_last(), visible);
        if lists(visible, tables.last()) {
            before.push(tables.len() - 1)
        } else {
            before
        }
    }
}

/// The tables that a caller is shown, by their places among those known: those that a policy lets
/// them see. A list of more would say what exists.
pub fn list_visible_tables(tables: &Vec<TableName>, visible: &Vec<TableName>) -> (r: Vec<usize>)
    ensures
        r@.map_values(|i: usize| i as int) == listed(
            tables@.map_values(|t: TableName| t@),
            visible@.map_values(|t: TableName| t@),
        ),
{
    let ghost all = tables@.map_values(|t: TableName| t@);
    let ghost shown = visible@.map_values(|t: TableName| t@);
    let mut r: Vec<usize> = Vec::new();
    let mut i: usize = 0;
    assert(r@.map_values(|i: usize| i as int) =~= Seq::empty());
    while i < tables.len()
        invariant
            i <= tables@.len(),
            all == tables@.map_values(|t: TableName| t@),
            shown == visible@.map_values(|t: TableName| t@),
            r@.map_values(|i: usize| i as int) == listed(all.take(i as int), shown),
        decreases tables@.len() - i,
    {
        assert(all.take(i + 1).drop_last() =~= all.take(i as int));
        if is_listed(visible, &tables[i]) {
            let ghost was = r@;
            r.push(i);
            assert(r@.map_values(|i: usize| i as int) =~= was.map_values(|i: usize| i as int).push(i as int));
        }
        i = i + 1;
    }
    assert(all.take(all.len() as int) =~= all);
    r
}

/// A caller is shown a table only where a policy lets them see it.
pub proof fn hidden_tables_are_not_listed(
    tables: Seq<(Seq<char>, Seq<char>)>,
    visible: Seq<(Seq<char>, Seq<char>)>,
    k: int,
)
    requires
        0 <= k < listed(tables, visible).len(),
    ensures
        0 <= listed(tables, visible)[k] < tables.len(),
        visible.contains(tables[listed(tables, visible)[k]]),
    decreases tables.len(),
{
    let before = listed(tables.drop_last(), visible);
    if k < before.len() {
        hidden_tables_are_not_listed(tables.drop_last(), visible, k);
        assert(tables.drop_last()[before[k]] == tables[before[k]]);
    }
}

/// The tables that a name may stand for: a qualified one for the table of both halves, a bare one
/// for every table that bears it.
pub open spec fn matching(tables: Seq<(Seq<char>, Seq<char>)>, name: Seq<char>) -> Seq<(Seq<char>, Seq<char>)>
    decreases tables.len(),
{
    if tables.len() == 0 {
        Seq::empty()
    } else {
        let before = matching(tables.drop_last(), name);
        let fits = match text::split_at_first(name, '.') {
            Some((schema, table)) => tables.last() == (schema, table),
            None => tables.last().1 == name,
        };
        if fits {
            before.push(tables.last())
        } else {
            before
        }
    }
}

/// The table that a name is authorised as: the one it stands for, or what the name itself says
/// where no table that is served bears it. A bare name that two tables bear authorises nothing.
pub open spec fn reference(tables: Seq<(Seq<char>, Seq<char>)>, name: Seq<char>) -> Option<(Seq<char>, Seq<char>)> {
    let fitting = matching(tables, name);
    if fitting.len() > 1 {
        None
    } else if fitting.len() == 1 {
        Some(fitting[0])
    } else {
        match text::split_at_first(name, '.') {
            Some((schema, table)) => Some((schema, table)),
            None => Some((Seq::empty(), name)),
        }
    }
}

/// The table that a name is authorised as.
pub fn scope_for(tables: &Vec<TableName>, name: &str) -> (r: Option<TableName>)
    ensures
        (match r {
            Some(table) => Some(table@),
            None => None,
        }) == reference(tables@.map_values(|t: TableName| t@), name@),
{
    let ghost all = tables@.map_values(|t: TableName| t@);
    let halves = split_once(name, '.');
    let mut fitting: Vec<TableName> = Vec::new();
    let mut i: usize = 0;
    assert(fitting@.map_values(|t: TableName| t@) =~= Seq::empty());
    while i < tables.len()
        invariant
            i <= tables@.len(),
            all == tables@.map_values(|t: TableName| t@),
            match halves {
                Some((schema, table)) => text::split_at_first(name@, '.') == Some((schema@, table@)),
                None => text::split_at_first(name@, '.') is None,
            },
            fitting@.map_values(|t: TableName| t@) == matching(all.take(i as int), name@),
        decreases tables@.len() - i,
    {
        assert(all.take(i + 1).drop_last() =~= all.take(i as int));
        let fits = match &halves {
            Some((schema, table)) => same(tables[i].schema.as_str(), schema.as_str()) && same(
                tables[i].table.as_str(),
                table.as_str(),
            ),
            None => same(tables[i].table.as_str(), name),
        };
        if fits {
            let ghost was = fitting@;
            fitting.push(tables[i].clone());
            assert(fitting@.map_values(|t: TableName| t@) =~= was.map_values(|t: TableName| t@).push(all[i as int]));
        }
        i = i + 1;
    }
    assert(all.take(all.len() as int) =~= all);
    let ghost found = fitting@.map_values(|t: TableName| t@);
    if fitting.len() > 1 {
        return None;
    }
    if fitting.len() == 1 {
        assert(found[0] == fitting@[0]@);
        return Some(fitting[0].clone());
    }
    match halves {
        Some((schema, table)) => Some(TableName { schema, table }),
        None => {
            let r = TableName { schema: String::new(), table: name.to_string() };
            assert(r@.0 =~= Seq::empty());
            Some(r)
        },
    }
}

/// The first table of a bare name, or the name itself in no schema.
pub open spec fn bare_reference(tables: Seq<(Seq<char>, Seq<char>)>, name: Seq<char>) -> (Seq<char>, Seq<char>)
    decreases tables.len(),
{
    if tables.len() == 0 {
        (Seq::empty(), name)
    } else if tables[0].1 == name {
        tables[0]
    } else {
        bare_reference(tables.skip(1), name)
    }
}

/// The table that is asked whether anything of it is withheld from a caller.
pub fn withholds_nothing(tables: &Vec<TableName>, name: &str) -> (r: TableName)
    ensures
        r@ == bare_reference(tables@.map_values(|t: TableName| t@), name@),
{
    let ghost all = tables@.map_values(|t: TableName| t@);
    let mut i: usize = 0;
    assert(all.skip(0) =~= all);
    while i < tables.len()
        invariant
            i <= tables@.len(),
            all == tables@.map_values(|t: TableName| t@),
            bare_reference(all, name@) == bare_reference(all.skip(i as int), name@),
        decreases tables@.len() - i,
    {
        assert(all.skip(i as int).skip(1) =~= all.skip(i + 1));
        if same(tables[i].table.as_str(), name) {
            return tables[i].clone();
        }
        i = i + 1;
    }
    let r = TableName { schema: String::new(), table: name.to_string() };
    assert(r@.0 =~= Seq::empty());
    r
}

// --- what a statement is ----------------------------------------------------------------------

/// What is recognised of a statement elsewhere.
pub struct Recognised {
    /// Whether it is about cubes.
    pub cube: bool,
    /// Whether it sets the snapshot a session reads as of.
    pub setting: bool,
    /// Whether it is about snapshots or versions.
    pub snapshot: bool,
    /// Whether it is about feeds.
    pub feed: bool,
    /// Whether it is a question about a clone.
    pub question: bool,
    /// Whether it makes or drops a clone.
    pub clone: bool,
}

/// Where a statement goes.
#[derive(PartialEq, Eq, Debug)]
pub enum Route {
    /// To what makes and drops cubes.
    Cube,
    /// It sets the snapshot a session reads as of.
    Setting,
    /// To what declares and drops aggregations.
    Aggregation(Statement),
    /// To what answers about snapshots and versions.
    Snapshot,
    /// It is answered at once: it is one that drivers send around a query.
    Session(Result<QueryResult, QueryFailure>),
    /// To what answers about feeds.
    Feed,
    /// To what answers about clones.
    Question,
    /// To what makes and drops clones, and from there to the engine where it is none.
    Clone,
    /// To the engine.
    Engine,
}

/// Where a statement goes, as text.
pub enum RouteView {
    /// To what makes and drops cubes.
    Cube,
    /// It sets the snapshot a session reads as of.
    Setting,
    /// To what declares and drops aggregations.
    Aggregation(StatementView),
    /// To what answers about snapshots and versions.
    Snapshot,
    /// It is answered at once.
    Session(Result<wire::Answer, wire::Refusal>),
    /// To what answers about feeds.
    Feed,
    /// To what answers about clones.
    Question,
    /// To what makes and drops clones.
    Clone,
    /// To the engine.
    Engine,
}

impl View for Route {
    type V = RouteView;

    open spec fn view(&self) -> RouteView {
        match self {
            Route::Cube => RouteView::Cube,
            Route::Setting => RouteView::Setting,
            Route::Aggregation(statement) => RouteView::Aggregation(statement@),
            Route::Snapshot => RouteView::Snapshot,
            Route::Session(outcome) => RouteView::Session(wire::reply(*outcome)),
            Route::Feed => RouteView::Feed,
            Route::Question => RouteView::Question,
            Route::Clone => RouteView::Clone,
            Route::Engine => RouteView::Engine,
        }
    }
}

/// What is answered to a statement that a driver sends around a query, where it is one.
pub open spec fn session_said(sql: Seq<char>) -> Option<Result<wire::Answer, wire::Refusal>> {
    driver::session_reply(driver::compacted(sql), driver::lock_in(sql))
}

/// Where a statement goes. What is about snapshots and versions comes before what drivers send
/// around a query, because that takes any setting for one that changes nothing.
pub open spec fn route(sql: Seq<char>, seen: Recognised) -> RouteView {
    if seen.cube {
        RouteView::Cube
    } else if seen.setting {
        RouteView::Setting
    } else if aggregations::written(sql) is Some {
        RouteView::Aggregation(aggregations::written(sql)->Some_0)
    } else if seen.snapshot {
        RouteView::Snapshot
    } else if session_said(sql) is Some {
        RouteView::Session(session_said(sql)->Some_0)
    } else if seen.feed {
        RouteView::Feed
    } else if seen.question {
        RouteView::Question
    } else if seen.clone {
        RouteView::Clone
    } else {
        RouteView::Engine
    }
}

/// Where a statement goes, without any comment in front of it.
pub fn run_statement(sql: &str, seen: &Recognised) -> (r: Route)
    ensures
        r@ == route(sql@, *seen),
{
    if seen.cube {
        return Route::Cube;
    }
    if seen.setting {
        return Route::Setting;
    }
    if let Some(statement) = parse(sql) {
        return Route::Aggregation(statement);
    }
    if seen.snapshot {
        return Route::Snapshot;
    }
    if let Some(answer) = run_session_statement(sql) {
        return Route::Session(answer);
    }
    if seen.feed {
        Route::Feed
    } else if seen.question {
        Route::Question
    } else if seen.clone {
        Route::Clone
    } else {
        Route::Engine
    }
}

/// Whether a statement is the server's own, so that the catalogue must not answer it.
pub open spec fn claimed(sql: Seq<char>, seen: Recognised) -> bool {
    ||| session_said(sql) is Some
    ||| text::begins_with(text::uppercase(text::trimmed(sql)), "SET SNAPSHOT"@)
    ||| seen.snapshot
    ||| aggregations::written(sql) is Some
    ||| seen.feed
    ||| seen.question
    ||| seen.cube
    ||| seen.clone
}

/// Whether a statement is the server's own.
pub fn claims(sql: &str, seen: &Recognised) -> (r: bool)
    ensures
        r == claimed(sql@, *seen),
{
    run_session_statement(sql).is_some() || has_prefix(to_upper(trim(sql).as_str()).as_str(), "SET SNAPSHOT")
        || seen.snapshot || parse(sql).is_some() || seen.feed || seen.question || seen.cube || seen.clone
}

/// A statement that goes anywhere but to the engine is claimed, so that what answers it and what
/// claims it agree on what it is.
pub proof fn whatever_is_answered_is_claimed(sql: Seq<char>, seen: Recognised)
    requires
        seen.setting ==> text::begins_with(text::uppercase(text::trimmed(sql)), "SET SNAPSHOT"@),
    ensures
        !(route(sql, seen) is Engine) ==> claimed(sql, seen),
{
}

/// A statement about snapshots or versions is never taken for a setting that changes nothing.
pub proof fn versions_are_not_swallowed(sql: Seq<char>, seen: Recognised)
    requires
        seen.snapshot,
    ensures
        !(route(sql, seen) is Session),
{
}

/// Whether a statement may be run at all, before anything is asked about what it says: a quota held
/// against it is told from a permission, because a client's right response differs. `quota` says
/// why it is refused for resources, `known` whether a principal stands behind the connection, and
/// `sqlstate` is the state of a refusal to authenticate.
pub open spec fn let_through(quota: Option<Seq<char>>, known: bool, sqlstate: Seq<char>) -> Option<wire::Refusal> {
    match quota {
        Some(why) => Some(wire::refused(wire::CONFIGURATION_LIMIT_EXCEEDED@, why)),
        None => if known {
            None
        } else {
            Some(wire::refused(sqlstate, "no principal is established for this connection"@))
        },
    }
}

/// Whether a statement may be run at all.
pub fn check_admission(quota: Option<&str>, known: bool, sqlstate: &str) -> (r: Result<(), QueryFailure>)
    ensures
        (match r {
            Ok(()) => None::<wire::Refusal>,
            Err(failure) => Some(failure@),
        }) == let_through(
            match quota {
                Some(why) => Some(why@),
                None => None,
            },
            known,
            sqlstate@,
        ),
{
    if let Some(why) = quota {
        return Err(refusal(wire::CONFIGURATION_LIMIT_EXCEEDED, why));
    }
    if !known {
        return Err(refusal(sqlstate, "no principal is established for this connection"));
    }
    Ok(())
}

/// A session that may read none of the tables there are is refused, in the state of a refusal of
/// permission.
pub fn refuse_if_nothing_readable(registered: usize, served: usize, sqlstate: &str) -> (r: Result<(), QueryFailure>)
    ensures
        (match r {
            Ok(()) => None::<wire::Refusal>,
            Err(failure) => Some(failure@),
        }) == (if registered == 0 && served > 0 {
            Some(wire::refused(sqlstate@, "this principal may not read any table"@))
        } else {
            None
        }),
{
    if registered == 0 && served > 0 {
        Err(refusal(sqlstate, "this principal may not read any table"))
    } else {
        Ok(())
    }
}

/// How an outcome is counted: a refusal is the system at work, an error is not.
pub open spec fn label(outcome: Result<wire::Answer, wire::Refusal>) -> Seq<char> {
    match outcome {
        Ok(_) => "ok"@,
        Err(refused) => if text::begins_with(refused.sqlstate, "53"@) || text::begins_with(refused.sqlstate, "28"@) {
            "refused"@
        } else if refused.sqlstate == "42501"@ {
            "refused"@
        } else if refused.sqlstate == "57014"@ {
            "cancelled"@
        } else {
            "error"@
        },
    }
}

/// How an outcome is counted.
pub fn outcome_label(outcome: &Result<QueryResult, QueryFailure>) -> (r: &'static str)
    ensures
        r@ == label(wire::reply(*outcome)),
{
    match outcome {
        Ok(_) => "ok",
        Err(failure) => {
            let state = failure.sqlstate.as_str();
            if has_prefix(state, "53") || has_prefix(state, "28") {
                "refused"
            } else if same(state, "42501") {
                "refused"
            } else if same(state, "57014") {
                "cancelled"
            } else {
                "error"
            }
        },
    }
}

/// Whether a message is about a bare name that could not be resolved.
pub open spec fn is_about(message: Seq<char>, bare: Seq<char>) -> bool {
    text::holds(message, "'"@ + bare + "'"@) || text::holds(message, "."@ + bare + "'"@)
}

/// The first contested name that a message is about, with its candidates.
pub open spec fn contested_in(message: Seq<char>, contested: Seq<(Seq<char>, Seq<Seq<char>>)>) -> Option<
    (Seq<char>, Seq<Seq<char>>),
>
    decreases contested.len(),
{
    if contested.len() == 0 {
        None
    } else if is_about(message, contested[0].0) {
        Some(contested[0])
    } else {
        contested_in(message, contested.skip(1))
    }
}

/// A failure about a name that several tables bear, with which ones: the same state and message,
/// and what to do about it.
pub open spec fn explained(
    failure: wire::Refusal,
    contested: Seq<(Seq<char>, Seq<Seq<char>>)>,
) -> wire::Refusal {
    match contested_in(failure.message, contested) {
        None => failure,
        Some((bare, candidates)) => wire::Refusal {
            sqlstate: failure.sqlstate,
            message: failure.message,
            detail: Some(
                "`"@ + bare + "` names more than one table in this warehouse: "@ + text::joined(candidates, ", "@)
                    + ". It is registered under neither, because answering with one of them would hand back a table you had no way to identify. Qualify it with its schema."@,
            ),
            subjects: candidates,
        },
    }
}

/// What names stand for, in the order of the names.
pub open spec fn candidates_of(entries: Seq<(String, Vec<String>)>) -> Seq<(Seq<char>, Seq<Seq<char>>)> {
    entries.map_values(|entry: (String, Vec<String>)| (entry.0@, text::views(entry.1@)))
}

/// A failure about a name that several tables bear, with which ones.
pub fn explain_contested(failure: QueryFailure, contested: &Vec<(String, Vec<String>)>) -> (r: QueryFailure)
    ensures
        r@ == explained(failure@, candidates_of(contested@)),
{
    let ghost all = candidates_of(contested@);
    let mut i: usize = 0;
    assert(all.skip(0) =~= all);
    while i < contested.len()
        invariant
            i <= contested@.len(),
            all == candidates_of(contested@),
            contested_in(failure.message@, all) == contested_in(failure.message@, all.skip(i as int)),
        decreases contested@.len() - i,
    {
        assert(all.skip(i as int).skip(1) =~= all.skip(i + 1));
        assert(all.skip(i as int)[0] == (contested@[i as int].0@, text::views(contested@[i as int].1@)));
        let mut alone = "'".to_string();
        alone.append(contested[i].0.as_str());
        alone.append("'");
        let mut behind = ".".to_string();
        behind.append(contested[i].0.as_str());
        behind.append("'");
        if contains(failure.message.as_str(), alone.as_str()) || contains(failure.message.as_str(), behind.as_str()) {
            let mut detail = "`".to_string();
            detail.append(contested[i].0.as_str());
            detail.append("` names more than one table in this warehouse: ");
            detail.append(join(&contested[i].1, ", ").as_str());
            detail.append(
                ". It is registered under neither, because answering with one of them would hand back a table you had no way to identify. Qualify it with its schema.",
            );
            let QueryFailure { sqlstate, message, detail: _, subjects: _ } = failure;
            let r = QueryFailure {
                sqlstate,
                message,
                detail: Some(detail),
                subjects: text::copy_list(&contested[i].1),
            };
            return r;
        }
        i = i + 1;
    }
    failure
}

/// To say which tables a name could mean changes neither the state a driver acts on nor the message.
pub proof fn explanations_change_no_state(
    failure: wire::Refusal,
    contested: Seq<(Seq<char>, Seq<Seq<char>>)>,
)
    ensures
        explained(failure, contested).sqlstate == failure.sqlstate,
        explained(failure, contested).message == failure.message,
{
}

// --- what is held -----------------------------------------------------------------------------

/// Whether a list of tables that was looked at again is put in place of the one held: only where a
/// table moved or arrived.
pub fn refreshed_servable(moved: usize, arrived: usize) -> (r: bool)
    ensures
        r == (moved > 0 || arrived > 0),
{
    moved > 0 || arrived > 0
}

/// The moment of the next record: one past the last, so that a chain of records reproduces exactly.
pub fn record(clock: i64) -> (r: i64)
    requires
        clock < i64::MAX,
    ensures
        r == clock + 1,
{
    clock + 1
}

/// The time in microseconds, or zero where the clock stands before the epoch; past what can be
/// counted, the last that can.
pub fn now_micros(since_epoch: Option<u128>) -> (r: i64)
    ensures
        r == (match since_epoch {
            Some(micros) => if micros <= i64::MAX {
                micros as int
            } else {
                i64::MAX as int
            },
            None => 0,
        }),
{
    match since_epoch {
        Some(micros) => {
            if micros <= i64::MAX as u128 {
                micros as i64
            } else {
                i64::MAX
            }
        },
        None => 0,
    }
}

/// Where in a session a statement reads from, as one value: nothing where it reads the present.
/// A snapshot or the version of a table that was set and not cleared pins it.
pub open spec fn is_pin(name: Seq<char>, value: Seq<char>) -> bool {
    value.len() > 0 && (name == "snapshot"@ || text::begins_with(name, "version of "@))
}

/// A text folded into a value, character by character.
pub open spec fn digested(seed: u64, s: Seq<char>) -> u64
    decreases s.len(),
{
    if s.len() == 0 {
        seed
    } else {
        (digested(seed, s.drop_last()) ^ s.last() as u64).wrapping_mul(SCOPE_PRIME)
    }
}

/// What parts a name from its value, and a setting from the next, in a digest: no character.
pub const PART_END: u64 = 0x11_0000;

/// A pin folded into a value: its name, then its value, each with an end.
pub open spec fn with_pin(seed: u64, name: Seq<char>, value: Seq<char>) -> u64 {
    let named = (digested(seed, name) ^ PART_END).wrapping_mul(SCOPE_PRIME);
    (digested(named, value) ^ PART_END).wrapping_mul(SCOPE_PRIME)
}

/// The pins of a session folded into a value.
pub open spec fn pins_folded(settings: Seq<(Seq<char>, Seq<char>)>) -> u64
    decreases settings.len(),
{
    if settings.len() == 0 {
        SCOPE_SEED
    } else {
        let before = pins_folded(settings.drop_last());
        let (name, value) = settings.last();
        if is_pin(name, value) {
            with_pin(before, name, value)
        } else {
            before
        }
    }
}

/// Whether any setting of a session pins it.
pub open spec fn any_pin(settings: Seq<(Seq<char>, Seq<char>)>) -> bool {
    exists|i: int| 0 <= i < settings.len() && is_pin((#[trigger] settings[i]).0, settings[i].1)
}

/// Where a session reads from, as one value: zero where it reads the present and nowhere else, so
/// that cells kept for one position are not found from another.
pub open spec fn pin_of(settings: Seq<(Seq<char>, Seq<char>)>) -> u64 {
    if !any_pin(settings) {
        0
    } else if pins_folded(settings) == 0 {
        1
    } else {
        pins_folded(settings)
    }
}

fn char_code(c: char) -> (r: u64)
    ensures
        r == c as u64,
{
    c as u64
}

fn digest(seed: u64, s: &str) -> (r: u64)
    ensures
        r == digested(seed, s@),
{
    let v = chars_of(s);
    let mut r: u64 = seed;
    let mut i: usize = 0;
    while i < v.len()
        invariant
            i <= v@.len(),
            r == digested(seed, v@.take(i as int)),
        decreases v@.len() - i,
    {
        assert(v@.take(i + 1).drop_last() =~= v@.take(i as int));
        r = (r ^ char_code(v[i])).wrapping_mul(SCOPE_PRIME);
        i = i + 1;
    }
    assert(v@.take(v@.len() as int) =~= v@);
    r
}

/// Where a session reads from, as one value.
pub fn pin_digest(settings: &Configuration) -> (r: u64)
    ensures
        r == pin_of(settings.listing()),
        r == 0 <==> !any_pin(settings.listing()),
{
    let entries = settings.entries();
    let ghost all = settings.listing();
    let mut value: u64 = SCOPE_SEED;
    let mut pinned = false;
    let mut i: usize = 0;
    while i < entries.len()
        invariant
            i <= entries@.len(),
            all == crate::config::pairs(entries@),
            all == settings.listing(),
            value == pins_folded(all.take(i as int)),
            pinned <==> exists|k: int| 0 <= k < i && is_pin((#[trigger] all[k]).0, all[k].1),
        decreases entries@.len() - i,
    {
        assert(all.take(i + 1).drop_last() =~= all.take(i as int));
        assert(all[i as int] == (entries@[i as int].0@, entries@[i as int].1@));
        let name = entries[i].0.as_str();
        let set = entries[i].1.as_str();
        if !set.is_empty() && (same(name, "snapshot") || has_prefix(name, "version of ")) {
            let named = (digest(value, name) ^ PART_END).wrapping_mul(SCOPE_PRIME);
            value = (digest(named, set) ^ PART_END).wrapping_mul(SCOPE_PRIME);
            pinned = true;
        }
        i = i + 1;
    }
    assert(all.take(all.len() as int) =~= all);
    if !pinned {
        0
    } else if value == 0 {
        1
    } else {
        value
    }
}

/// The roles a user holds are those written against the first entry of their name; where no user is named
/// at all, everybody is a reader.
pub proof fn users_hold_the_roles_named_for_them(roles: Seq<(Seq<char>, Seq<Seq<char>>)>, i: int)
    requires
        0 <= i < roles.len(),
        forall|k: int| 0 <= k < i ==> (#[trigger] roles[k]).0 != roles[i].0,
    ensures
        roles_held(roles, roles[i].0) == roles[i].1,
        roles_held(Seq::empty(), roles[i].0) == seq!["reader"@],
    decreases roles.len(),
{
    if i > 0 {
        let rest = roles.skip(1);
        assert(roles[0].0 != roles[i].0);
        assert forall|k: int| 0 <= k < i - 1 implies (#[trigger] rest[k]).0 != rest[i - 1].0 by {
            assert(roles[k + 1].0 != roles[i].0);
        }
        users_hold_the_roles_named_for_them(rest, i - 1);
    }
}

/// A parameter is read from the first entry of its name, and is empty where there is none.
pub proof fn parameters_are_read_by_name(parameters: Seq<(Seq<char>, Seq<char>)>, name: Seq<char>)
    ensures
        (exists|i: int|
            0 <= i < parameters.len() && (#[trigger] parameters[i]).0 == name && parameters[i].1 == parameter(
                parameters,
                name,
            ) && forall|k: int| 0 <= k < i ==> (#[trigger] parameters[k]).0 != name) || (forall|i: int|
            0 <= i < parameters.len() ==> (#[trigger] parameters[i]).0 != name) && parameter(parameters, name).len() == 0,
    decreases parameters.len(),
{
    if parameters.len() > 0 {
        if parameters[0].0 == name {
            assert(parameters[0].1 == parameter(parameters, name));
        } else {
            let rest = parameters.skip(1);
            parameters_are_read_by_name(rest, name);
            if exists|i: int|
                0 <= i < rest.len() && (#[trigger] rest[i]).0 == name && rest[i].1 == parameter(rest, name)
                    && forall|k: int|
                    0 <= k < i ==> (#[trigger] rest[k]).0 != name {
                let i = choose|i: int|
                    0 <= i < rest.len() && (#[trigger] rest[i]).0 == name && rest[i].1 == parameter(rest, name)
                        && forall|k: int| 0 <= k < i ==> (#[trigger] rest[k]).0 != name;
                assert(parameters[i + 1] == rest[i]);
                assert forall|k: int| 0 <= k < i + 1 implies (#[trigger] parameters[k]).0 != name by {
                    if k > 0 {
                        assert(rest[k - 1].0 != name);
                    }
                }
            } else {
                assert forall|i: int| 0 <= i < parameters.len() implies (#[trigger] parameters[i]).0 != name by {
                    if i > 0 {
                        assert(rest[i - 1].0 != name);
                    }
                }
            }
        }
    }
}

/// A connection is let in exactly where somebody is named, a password was given if one is required, and it
/// was verified if there is anything to verify it against; a refusal to authenticate bears its own state.
pub proof fn logins_take_all_that_is_asked(
    user: Seq<char>,
    require_password: bool,
    password_given: bool,
    any_credentials: bool,
    verified: bool,
    sqlstate: Seq<char>,
)
    ensures
        ({
            let refusal = admitted(user, require_password, password_given, any_credentials, verified, sqlstate);
            &&& refusal is None <==> user.len() > 0 && (require_password ==> password_given) && (any_credentials
                ==> verified)
            &&& refusal matches Some(r) ==> r.sqlstate == sqlstate
        }),
{
}

/// The policy of a warehouse that has none of its own lets every reader read every table whole, and nobody
/// do anything else.
pub proof fn open_warehouses_are_read_whole(tenant: TenantId, table: (Seq<char>, Seq<char>))
    ensures
        reader_rule(tenant, table).role == "reader"@,
        reader_rule(tenant, table).tenant == tenant,
        reader_rule(tenant, table).table == table,
        reader_rule(tenant, table).action is Read,
        reader_rule(tenant, table).effect is Grant,
        reader_rule(tenant, table).predicate is None,
        reader_rule(tenant, table).masks.len() == 0,
{
}

/// Whether a name may stand for a table: it is its bare name, or its schema and its name with a dot between.
pub open spec fn may_mean(name: Seq<char>, table: (Seq<char>, Seq<char>)) -> bool {
    if name.contains('.') {
        name == table.0 + "."@ + table.1 && !table.0.contains('.')
    } else {
        name == table.1
    }
}

proof fn lemma_may_mean(name: Seq<char>, table: (Seq<char>, Seq<char>))
    ensures
        may_mean(name, table) <==> (match text::split_at_first(name, '.') {
            Some((schema, bare)) => table == (schema, bare),
            None => table.1 == name,
        }),
{
    reveal_strlit(".");
    assert("."@ =~= seq!['.']);
    text::lemma_split_at_first(name, '.');
    match text::split_at_first(name, '.') {
        Some((schema, bare)) => {
            assert(name[schema.len() as int] == '.');
            assert(name.contains('.'));
            if may_mean(name, table) {
                text::lemma_cut_at_first(table.0, table.1, '.');
            }
        },
        None => {},
    }
}

proof fn lemma_matching(tables: Seq<(Seq<char>, Seq<char>)>, name: Seq<char>)
    ensures
        lists::picked_from(
            tables,
            matching(tables, name),
            |t: (Seq<char>, Seq<char>), u: (Seq<char>, Seq<char>)| u == t && may_mean(name, t),
        ),
    decreases tables.len(),
{
    let p = |t: (Seq<char>, Seq<char>), u: (Seq<char>, Seq<char>)| u == t && may_mean(name, t);
    if tables.len() == 0 {
        lists::lemma_picked_none::<(Seq<char>, Seq<char>), (Seq<char>, Seq<char>)>(p);
        assert(tables =~= Seq::empty());
    } else {
        lemma_matching(tables.drop_last(), name);
        lemma_may_mean(name, tables.last());
        let earlier = matching(tables.drop_last(), name);
        if may_mean(name, tables.last()) {
            lists::lemma_picked_one(tables, earlier, p, tables.last());
        } else {
            lists::lemma_passed_over(tables, earlier, p);
        }
    }
}

/// A name stands for the one table that it may mean; for none where it may mean two; and where it may mean
/// no table that is served, for what it says, so that a policy still speaks of it.
pub proof fn names_stand_for_one_table(tables: Seq<(Seq<char>, Seq<char>)>, name: Seq<char>)
    ensures
        match reference(tables, name) {
            Some(table) => may_mean(name, table) && (forall|i: int, j: int|
                0 <= i < j < tables.len() ==> !(may_mean(name, #[trigger] tables[i]) && may_mean(
                    name,
                    #[trigger] tables[j],
                ))) && ((exists|i: int| 0 <= i < tables.len() && #[trigger] tables[i] == table) || (forall|i: int|
                0 <= i < tables.len() ==> !may_mean(name, #[trigger] tables[i]))),
            None => exists|i: int, j: int|
                0 <= i < j < tables.len() && may_mean(name, #[trigger] tables[i]) && may_mean(name, #[trigger] tables[j]),
        },
{
    let fitting = matching(tables, name);
    let p = |t: (Seq<char>, Seq<char>), u: (Seq<char>, Seq<char>)| u == t && may_mean(name, t);
    lemma_matching(tables, name);
    let at = choose|at: Seq<int>| #[trigger] lists::picked_at(tables, fitting, p, at);
    assert forall|i: int| 0 <= i < tables.len() && may_mean(name, #[trigger] tables[i]) implies at.contains(i) by {
        assert(p(tables[i], tables[i]));
    }
    if fitting.len() > 1 {
        assert(at[0] < at[1]);
        assert(p(tables[at[0]], fitting[0]) && p(tables[at[1]], fitting[1]));
        assert(may_mean(name, tables[at[0]]) && may_mean(name, tables[at[1]]));
    } else {
        assert forall|i: int, j: int| 0 <= i < j < tables.len() implies !(may_mean(name, #[trigger] tables[i])
            && may_mean(name, #[trigger] tables[j])) by {
            if may_mean(name, tables[i]) && may_mean(name, tables[j]) {
                let a = choose|a: int| 0 <= a < at.len() && at[a] == i;
                let b = choose|b: int| 0 <= b < at.len() && at[b] == j;
                assert(a == 0 && b == 0);
            }
        }
        if fitting.len() == 1 {
            assert(p(tables[at[0]], fitting[0]));
            assert(tables[at[0]] == fitting[0]);
        } else {
            assert forall|i: int| 0 <= i < tables.len() implies !may_mean(name, #[trigger] tables[i]) by {
                if may_mean(name, tables[i]) {
                    assert(at.contains(i));
                }
            }
            let table = reference(tables, name)->0;
            lemma_may_mean(name, table);
        }
    }
}

/// A bare name stands for the first table that bears it, or else for itself in no schema.
pub proof fn bare_names_stand_for_the_first(tables: Seq<(Seq<char>, Seq<char>)>, name: Seq<char>)
    ensures
        bare_reference(tables, name).1 == name,
        (exists|i: int|
            0 <= i < tables.len() && #[trigger] tables[i] == bare_reference(tables, name) && forall|k: int|
                0 <= k < i ==> (#[trigger] tables[k]).1 != name) || bare_reference(tables, name).0.len() == 0 && forall|
            k: int,
        |
            0 <= k < tables.len() ==> (#[trigger] tables[k]).1 != name,
    decreases tables.len(),
{
    if tables.len() > 0 {
        if tables[0].1 == name {
            assert(tables[0] == bare_reference(tables, name));
        } else {
            let rest = tables.skip(1);
            bare_names_stand_for_the_first(rest, name);
            if exists|i: int|
                0 <= i < rest.len() && #[trigger] rest[i] == bare_reference(rest, name) && forall|k: int|
                    0 <= k < i ==> (#[trigger] rest[k]).1 != name {
                let i = choose|i: int|
                    0 <= i < rest.len() && #[trigger] rest[i] == bare_reference(rest, name) && forall|k: int|
                        0 <= k < i ==> (#[trigger] rest[k]).1 != name;
                assert(tables[i + 1] == rest[i]);
                assert forall|k: int| 0 <= k < i + 1 implies (#[trigger] tables[k]).1 != name by {
                    if k > 0 {
                        assert(rest[k - 1].1 != name);
                    }
                }
            } else {
                assert forall|k: int| 0 <= k < tables.len() implies (#[trigger] tables[k]).1 != name by {
                    if k > 0 {
                        assert(rest[k - 1].1 != name);
                    }
                }
            }
        }
    }
}

/// A statement goes where it was recognised, by whoever comes first: cubes, a setting, aggregations,
/// snapshots, the session, feeds, questions and clones; and to the engine only where nobody knows it.
pub proof fn statements_go_to_who_knows_them(sql: Seq<char>, seen: Recognised)
    ensures
        match route(sql, seen) {
            RouteView::Cube => seen.cube,
            RouteView::Setting => seen.setting && !seen.cube,
            RouteView::Aggregation(statement) => aggregations::written(sql) == Some(statement) && !seen.cube
                && !seen.setting,
            RouteView::Snapshot => seen.snapshot && !seen.cube && !seen.setting && aggregations::written(sql) is None,
            RouteView::Session(answer) => session_said(sql) == Some(answer) && !seen.cube && !seen.setting
                && !seen.snapshot,
            RouteView::Feed => seen.feed && session_said(sql) is None && !seen.cube && !seen.setting && !seen.snapshot,
            RouteView::Question => seen.question && !seen.feed && session_said(sql) is None && !seen.snapshot,
            RouteView::Clone => seen.clone && !seen.question && !seen.feed && session_said(sql) is None
                && !seen.snapshot,
            RouteView::Engine => !seen.cube && !seen.setting && !seen.snapshot && !seen.feed && !seen.question
                && !seen.clone && session_said(sql) is None && aggregations::written(sql) is None,
        },
        claimed(sql, seen) ==> !(route(sql, seen) is Engine) || text::begins_with(
            text::uppercase(text::trimmed(sql)),
            "SET SNAPSHOT"@,
        ),
{
}

/// A statement is let through exactly where no quota is held against it and somebody is known to be behind
/// it; a quota is told from a permission by its state.
pub proof fn statements_are_let_through_for_the_known(quota: Option<Seq<char>>, known: bool, sqlstate: Seq<char>)
    ensures
        let_through(quota, known, sqlstate) is None <==> quota is None && known,
        quota matches Some(why) ==> (let_through(quota, known, sqlstate) matches Some(r) && r.sqlstate == "53400"@
            && r.message == why),
        quota is None && !known ==> (let_through(quota, known, sqlstate) matches Some(r) && r.sqlstate == sqlstate),
{
}

/// An outcome is counted as what it was: an answer, a refusal for want of resources, of a login or of a
/// permission, a statement that was stopped, or an error.
pub proof fn outcomes_are_counted_by_their_state(outcome: Result<wire::Answer, wire::Refusal>)
    ensures
        match outcome {
            Ok(_) => label(outcome) == "ok"@,
            Err(r) => {
                let refused = r.sqlstate.len() >= 2 && (r.sqlstate.take(2) == "53"@ || r.sqlstate.take(2) == "28"@)
                    || r.sqlstate == "42501"@;
                &&& refused ==> label(outcome) == "refused"@
                &&& r.sqlstate == "57014"@ ==> label(outcome) == "cancelled"@
                &&& !refused && r.sqlstate != "57014"@ ==> label(outcome) == "error"@
            },
        },
{
    if let Err(r) = outcome {
        reveal_strlit("53");
        reveal_strlit("28");
        reveal_strlit("42501");
        reveal_strlit("57014");
        if r.sqlstate.len() >= 2 {
            assert(r.sqlstate.take(2) =~= r.sqlstate.subrange(0, 2));
        }
        if r.sqlstate == "57014"@ {
            assert(r.sqlstate.subrange(0, 2)[0] == '5' && r.sqlstate.subrange(0, 2)[1] == '7');
            assert("53"@[1] == '3' && "28"@[0] == '2' && "42501"@[0] == '4');
        }
    }
}

/// A failure that names a contested name is explained by the first such name, with every table it could
/// mean; a failure that names none stays as it is.
pub proof fn contested_failures_name_the_candidates(
    failure: wire::Refusal,
    contested: Seq<(Seq<char>, Seq<Seq<char>>)>,
)
    ensures
        (explained(failure, contested) == failure && forall|i: int|
            0 <= i < contested.len() ==> !is_about(failure.message, (#[trigger] contested[i]).0)) || exists|i: int|
            0 <= i < contested.len() && is_about(failure.message, (#[trigger] contested[i]).0) && explained(
                failure,
                contested,
            ).subjects == contested[i].1,
    decreases contested.len(),
{
    if contested.len() > 0 && !is_about(failure.message, contested[0].0) {
        let rest = contested.skip(1);
        contested_failures_name_the_candidates(failure, rest);
        if exists|i: int|
            0 <= i < rest.len() && is_about(failure.message, (#[trigger] rest[i]).0) && explained(failure, rest).subjects
                == rest[i].1 {
            let i = choose|i: int|
                0 <= i < rest.len() && is_about(failure.message, (#[trigger] rest[i]).0) && explained(
                    failure,
                    rest,
                ).subjects == rest[i].1;
            assert(contested[i + 1] == rest[i]);
        } else {
            assert forall|i: int| 0 <= i < contested.len() implies !is_about(
                failure.message,
                (#[trigger] contested[i]).0,
            ) by {
                if i > 0 {
                    assert(rest[i - 1] == contested[i]);
                }
            }
        }
    } else if contested.len() > 0 {
        assert(contested[0] == contested[0]);
    }
}

/// What pins what a session reads is a snapshot or a version that it named; other settings change nothing
/// of what it is given from what is held, and every pin tells two sessions apart from one with none.
pub proof fn only_pins_are_digested(settings: Seq<(Seq<char>, Seq<char>)>, name: Seq<char>, value: Seq<char>)
    ensures
        is_pin("snapshot"@, value) <==> value.len() > 0,
        is_pin("version of "@ + name, value) <==> value.len() > 0,
        is_pin(name, value) ==> name == "snapshot"@ || name.len() >= 11 && name.take(11) == "version of "@,
        !is_pin(name, value) ==> pin_of(settings.push((name, value))) == pin_of(settings),
        is_pin(name, value) ==> pin_of(settings.push((name, value))) != 0,
        pin_of(Seq::empty()) == 0,
{
    reveal_strlit("version of ");
    reveal_strlit("snapshot");
    let head = "version of "@;
    assert((head + name).subrange(0, 11) =~= head);
    assert("snapshot"@[0] == 's');
    if name.len() >= 11 {
        assert(name.take(11) =~= name.subrange(0, 11));
    }
    let more = settings.push((name, value));
    assert(more.drop_last() =~= settings);
    if any_pin(settings) {
        let i = choose|i: int| 0 <= i < settings.len() && is_pin((#[trigger] settings[i]).0, settings[i].1);
        assert(more[i] == settings[i]);
    }
    if is_pin(name, value) {
        assert(is_pin(more[settings.len() as int].0, more[settings.len() as int].1));
    } else if any_pin(more) {
        let i = choose|i: int| 0 <= i < more.len() && is_pin((#[trigger] more[i]).0, more[i].1);
        assert(more[i] == settings[i]);
    }
}

/// No answer has more than ten thousand rows.
pub proof fn answers_are_bounded()
    ensures
        MAX_RESULT_ROWS == 10_000,
{
}

/// The definitions that are adopted are those that nothing is wrong with, in order.
pub proof fn sound_definitions_are_adopted(definitions: Seq<Validated>)
    ensures
        lists::places_where(definitions, adopted(definitions), |d: Validated| d.rejections@.len() == 0),
    decreases definitions.len(),
{
    if definitions.len() > 0 {
        sound_definitions_are_adopted(definitions.drop_last());
        lists::lemma_one_more_place(definitions, adopted(definitions.drop_last()), |d: Validated| d.rejections@.len() == 0);
    }
}

/// Each definition that something is wrong with is named, with all that is.
pub proof fn unsound_definitions_are_said(kind: Seq<char>, definitions: Seq<Validated>)
    ensures
        lists::picked_from(definitions, rejected(kind, definitions), |d: Validated, c: Seq<char>| d.rejections@.len() > 0
            && c == "the "@ + kind + " `"@ + d.name@ + "`: "@ + text::joined(text::views(d.rejections@), "; "@)),
    decreases definitions.len(),
{
    let p = |d: Validated, c: Seq<char>| d.rejections@.len() > 0
        && c == "the "@ + kind + " `"@ + d.name@ + "`: "@ + text::joined(text::views(d.rejections@), "; "@);
    if definitions.len() == 0 {
        lists::lemma_picked_none::<Validated, Seq<char>>(p);
        assert(definitions =~= Seq::empty());
    } else {
        unsound_definitions_are_said(kind, definitions.drop_last());
        let earlier = rejected(kind, definitions.drop_last());
        let last = definitions.last();
        if last.rejections@.len() > 0 {
            lists::lemma_picked_one(definitions, earlier, p, "the "@ + kind + " `"@ + last.name@ + "`: "@ + text::joined(text::views(last.rejections@), "; "@));
        } else {
            lists::lemma_passed_over(definitions, earlier, p);
        }
    }
}

/// The tables that are listed are those the caller may see, in order: every one of them, and no other.
pub proof fn visible_tables_are_listed(tables: Seq<(Seq<char>, Seq<char>)>, visible: Seq<(Seq<char>, Seq<char>)>)
    ensures
        lists::places_where(tables, listed(tables, visible), |t: (Seq<char>, Seq<char>)| visible.contains(t)),
    decreases tables.len(),
{
    if tables.len() > 0 {
        visible_tables_are_listed(tables.drop_last(), visible);
        lists::lemma_one_more_place(tables, listed(tables.drop_last(), visible), |t: (Seq<char>, Seq<char>)| visible.contains(t));
    }
}

/// The server says how it authenticates: by verifying where it has credentials, by any password where it asks for
/// one and has none, and not at all where it does not ask.
pub proof fn authentication_is_said_as_it_is(require_password: bool, credentials: nat)
    ensures
        authentication_said(require_password, credentials)[0] == 'p' <==> credentials > 0,
        authentication_said(require_password, credentials)[0] == 'P' <==> credentials == 0 && require_password,
        authentication_said(require_password, credentials)[0] == 'N' <==> credentials == 0 && !require_password,
{
    reveal_strlit("password verified for ");
    reveal_strlit(
        "PASSWORD UNVERIFIED — no credentials are configured, so any non-empty password is accepted from any user",
    );
    reveal_strlit("NO AUTHENTICATION — every connection is accepted");
    if credentials > 0 {
        assert(authentication_said(require_password, credentials)[0] == "password verified for "@[0]);
    }
}

/// Texts are digested character by character, and a pin by its name and its value, each with a mark behind it that
/// is no character.
pub proof fn pins_are_digested_part_by_part(
    seed: u64,
    s: Seq<char>,
    c: char,
    settings: Seq<(Seq<char>, Seq<char>)>,
    name: Seq<char>,
    value: Seq<char>,
)
    ensures
        digested(seed, Seq::empty()) == seed,
        digested(seed, s.push(c)) == (digested(seed, s) ^ c as u64).wrapping_mul(1_099_511_628_211u64),
        pins_folded(Seq::empty()) == 14_695_981_039_346_656_037u64,
        is_pin(name, value) ==> pins_folded(settings.push((name, value))) == (digested(
            (digested(pins_folded(settings), name) ^ 1_114_112u64).wrapping_mul(1_099_511_628_211u64),
            value,
        ) ^ 1_114_112u64).wrapping_mul(1_099_511_628_211u64),
        !is_pin(name, value) ==> pins_folded(settings.push((name, value))) == pins_folded(settings),
{
    assert(s.push(c).drop_last() =~= s);
    assert(settings.push((name, value)).drop_last() =~= settings);
}

/// A failure is about the first contested name that it speaks of.
pub proof fn failures_are_about_the_first_contested_name(
    message: Seq<char>,
    contested: Seq<(Seq<char>, Seq<Seq<char>>)>,
)
    ensures
        match contested_in(message, contested) {
            Some(found) => exists|i: int|
                #![trigger contested[i]]
                lists::first_at(contested, i, |c: (Seq<char>, Seq<Seq<char>>)| is_about(message, c.0)) && found
                    == contested[i],
            None => lists::nowhere(contested, |c: (Seq<char>, Seq<Seq<char>>)| is_about(message, c.0)),
        },
    decreases contested.len(),
{
    let p = |c: (Seq<char>, Seq<Seq<char>>)| is_about(message, c.0);
    if contested.len() > 0 {
        let rest = contested.skip(1);
        lists::lemma_first_behind(contested, p);
        if p(contested[0]) {
            assert(lists::first_at(contested, 0, p));
        } else {
            failures_are_about_the_first_contested_name(message, rest);
            if let Some(found) = contested_in(message, rest) {
                let i = choose|i: int| #![trigger rest[i]] lists::first_at(rest, i, p) && found == rest[i];
                assert(lists::first_at(contested, i + 1, p));
                assert(contested[i + 1] == rest[i]);
            }
        }
    }
}

/// A failure is about a name where it quotes it, alone or behind its schema, and only where it quotes its end.
pub proof fn failures_are_about_what_they_quote(before: Seq<char>, name: Seq<char>, behind: Seq<char>, message: Seq<char>)
    ensures
        is_about(before + (seq!['\''] + name + seq!['\'']) + behind, name),
        is_about(before + (seq!['.'] + name + seq!['\'']) + behind, name),
        is_about(message, name) ==> text::holds(message, name + seq!['\'']),
{
    reveal_strlit("'");
    reveal_strlit(".");
    assert("'"@ =~= seq!['\'']);
    assert("."@ =~= seq!['.']);
    lemma_held_between(before, seq!['\''] + name + seq!['\''], behind);
    lemma_held_between(before, seq!['.'] + name + seq!['\''], behind);
    if is_about(message, name) {
        let needle = name + seq!['\''];
        if text::holds(message, "'"@ + name + "'"@) {
            let at = choose|at: int| #[trigger] text::stands_at(message, "'"@ + name + "'"@, at);
            lemma_end_stands(message, "'"@, name, "'"@, at);
            assert(name + "'"@ == needle);
        } else {
            let at = choose|at: int| #[trigger] text::stands_at(message, "."@ + name + "'"@, at);
            lemma_end_stands(message, "."@, name, "'"@, at);
            assert(name + "'"@ == needle);
        }
    }
}

proof fn lemma_held_between(before: Seq<char>, needle: Seq<char>, behind: Seq<char>)
    ensures
        text::holds(before + needle + behind, needle),
{
    let s = before + needle + behind;
    let at = before.len() as int;
    assert(s.subrange(at, at + needle.len()) =~= needle);
    assert(text::stands_at(s, needle, at));
}

proof fn lemma_end_stands(message: Seq<char>, mark: Seq<char>, name: Seq<char>, end: Seq<char>, at: int)
    requires
        mark.len() == 1,
        text::stands_at(message, mark + name + end, at),
    ensures
        text::holds(message, name + end),
{
    let whole = mark + name + end;
    let needle = name + end;
    let there = message.subrange(at, at + whole.len());
    assert(message.subrange(at + 1, at + 1 + needle.len()) =~= there.skip(1));
    assert(whole.skip(1) =~= needle);
    assert(text::stands_at(message, needle, at + 1));
}

/// Every table that could not be opened is said, with the reason, in order.
pub proof fn unopened_tables_are_told(tables: Seq<(Seq<char>, Seq<char>)>, i: int)
    requires
        0 <= i < tables.len(),
    ensures
        unopened(tables).len() == tables.len(),
        unopened(tables)[i] == tables[i].0 + ": "@ + tables[i].1,
{
}

} // verus!
