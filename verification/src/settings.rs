//! What a server is told to do: its settings, its subcommands and its clocks.
//!
//! A setting is refused rather than defaulted where it cannot be read: one that silently becomes
//! something else is a deployment behaving as though it were configured when it is not.

use crate::lists;
use crate::config::Configuration;
use crate::numerals::{self, parse_natural, signed_text};
use crate::policy::TenantId;
use crate::text::{self, same, split, split_last, trim};
use crate::warehouse::{self, Place};
use vstd::prelude::*;

verus! {

/// The rows that automatic materialisation may spend on one cube, where nobody says otherwise.
pub const CUBOID_ROW_BUDGET: u64 = 10_000_000;

/// What the server says about itself when asked, and when told something it does not understand.
pub const USAGE: &'static str = "SANKHYA --- an analytical warehouse that refuses rather than guesses.

USAGE:
    sankhya-server [start]     serve; the default when no subcommand is given
    sankhya-server doctor      report on the warehouse and exit non-zero on a finding
    sankhya-server backup      take a backup
    sankhya-server drill       restore a backup and prove it reads
    sankhya-server attest <store>
                               attest a declared backup store
    sankhya-server hash-password
                               read a password and print a verifier for
                               server.credentials.<user>
    sankhya-server --help | --version

ENVIRONMENT:
    SANKHYA_CONFIG             configuration file(s), comma-separated
                               (default: config/application.yaml, relative to the working
                               directory --- a unit with no WorkingDirectory= gets none)
    SANKHYA_WAREHOUSE          warehouse.path
    SANKHYA_LISTEN             server.listen
    SANKHYA_METRICS_LISTEN     server.metrics_listen
    SANKHYA_READ_AS_OF         warehouse.read_as_of
    SANKHYA_DATA_DIR           data.dir
    SANKHYA_NO_PASSWORD        serve with no authentication; presence is the signal
    SANKHYA_USER_FUNCTIONS     accept CREATE AGGREGATION, which runs supplied code
                               (default: false)

Configuration is refused rather than defaulted: a setting that silently becomes something
else is a deployment behaving as though it were configured when it is not.";

// --- encryption -------------------------------------------------------------------------------

/// What a server's encryption is made of.
#[derive(PartialEq, Eq, Debug)]
pub struct TransportSecurity {
    /// Where the certificate lies.
    pub certificate: String,
    /// Where its private key lies.
    pub private_key: String,
    /// Where the certificates that clients are held to lie, where they are.
    pub client_ca: Option<String>,
    /// Whether a client that does not ask for encryption is turned away.
    pub require: bool,
}

/// How a server's door is encrypted.
#[derive(Clone, Copy, PartialEq, Eq, Debug, Structural)]
pub enum Posture {
    /// Not at all.
    Clear,
    /// For a client that asks.
    Offered,
    /// For every client.
    Required,
    /// For every client, each with a certificate of its own.
    Mutual,
}

/// What a server's encryption is made of, as text.
#[verifier::ext_equal]
pub struct SecurityView {
    /// Where the certificate lies.
    pub certificate: Seq<char>,
    /// Where its private key lies.
    pub private_key: Seq<char>,
    /// Where the certificates that clients are held to lie, where they are.
    pub client_ca: Option<Seq<char>>,
    /// Whether a client that does not ask for encryption is turned away.
    pub require: bool,
}

impl View for TransportSecurity {
    type V = SecurityView;

    open spec fn view(&self) -> SecurityView {
        SecurityView {
            certificate: self.certificate@,
            private_key: self.private_key@,
            client_ca: crate::wire::cell(self.client_ca),
            require: self.require,
        }
    }
}

/// What a setting holds, where it is set.
pub open spec fn held(config: Map<Seq<char>, Seq<char>>, name: Seq<char>) -> Option<Seq<char>> {
    if config.contains_key(name) {
        Some(config[name])
    } else {
        None
    }
}

/// What a setting holds, or what stands in where it is not set.
pub open spec fn held_or(config: Map<Seq<char>, Seq<char>>, name: Seq<char>, otherwise: Seq<char>) -> Seq<char> {
    match held(config, name) {
        Some(value) => value,
        None => otherwise,
    }
}

/// What is said of half an encryption: a server that starts in the clear there is one whose
/// operator believes it is encrypted.
pub open spec fn half_encrypted(set: Seq<char>, missing: Seq<char>) -> Seq<char> {
    set + " is set and "@ + missing
        + " is not. Refused rather than started in the clear: a half-configured door is not a server that is nearly encrypted, it is a server whose operator believes it is encrypted"@
}

/// The encryption that settings ask for: none, all of it, or a refusal of half. A client is held to
/// it unless the settings say otherwise by name.
pub open spec fn encryption(
    config: Map<Seq<char>, Seq<char>>,
    require: Result<Option<bool>, Seq<char>>,
) -> Result<Option<SecurityView>, Seq<char>> {
    match (held(config, "server.tls.certificate"@), held(config, "server.tls.private_key"@)) {
        (None, None) => Ok(None),
        (Some(_), None) => Err(half_encrypted("server.tls.certificate"@, "server.tls.private_key"@)),
        (None, Some(_)) => Err(half_encrypted("server.tls.private_key"@, "server.tls.certificate"@)),
        (Some(certificate), Some(private_key)) => match require {
            Err(why) => Err(why),
            Ok(said) => Ok(
                Some(
                    SecurityView {
                        certificate,
                        private_key,
                        client_ca: held(config, "server.tls.client_ca"@),
                        require: match said {
                            Some(require) => require,
                            None => true,
                        },
                    },
                ),
            ),
        },
    }
}

/// A reading, with its complaint as text.
pub open spec fn reading<T>(read: Result<T, String>) -> Result<T, Seq<char>> {
    match read {
        Ok(value) => Ok(value),
        Err(why) => Err(why@),
    }
}

fn copy_of(config: &Configuration, name: &str) -> (r: Option<String>)
    ensures
        crate::wire::cell(r) == held(config@, name@),
{
    match config.get(name) {
        Some(value) => Some(value.clone()),
        None => None,
    }
}

fn copy_or(config: &Configuration, name: &str, otherwise: &str) -> (r: String)
    ensures
        r@ == held_or(config@, name@, otherwise@),
{
    match config.get(name) {
        Some(value) => value.clone(),
        None => otherwise.to_string(),
    }
}

/// The encryption that settings ask for; `require` is `server.tls.require` as it was read.
pub fn transport_security(config: &Configuration, require: Result<Option<bool>, String>) -> (r: Result<
    Option<TransportSecurity>,
    String,
>)
    ensures
        (match r {
            Ok(Some(security)) => Ok::<Option<SecurityView>, Seq<char>>(Some(security@)),
            Ok(None) => Ok(None),
            Err(why) => Err(why@),
        }) == encryption(config@, reading(require)),
{
    let certificate = copy_of(config, "server.tls.certificate");
    let private_key = copy_of(config, "server.tls.private_key");
    if certificate.is_none() && private_key.is_none() {
        return Ok(None);
    }
    match (certificate, private_key) {
        (Some(certificate), Some(private_key)) => {
            let require = match require {
                Ok(Some(require)) => require,
                Ok(None) => true,
                Err(why) => {
                    return Err(why);
                },
            };
            let client_ca = copy_of(config, "server.tls.client_ca");
            Ok(Some(TransportSecurity { certificate, private_key, client_ca, require }))
        },
        (present, _) => {
            let (set, missing) = if present.is_some() {
                ("server.tls.certificate", "server.tls.private_key")
            } else {
                ("server.tls.private_key", "server.tls.certificate")
            };
            let mut why = set.to_string();
            why.append(" is set and ");
            why.append(missing);
            why.append(
                " is not. Refused rather than started in the clear: a half-configured door is not a server that is nearly encrypted, it is a server whose operator believes it is encrypted",
            );
            Err(why)
        },
    }
}

/// How a door is encrypted: `mutual` says of the door that stands, where one does, whether it holds
/// clients to certificates of their own.
pub open spec fn posture(mutual: Option<bool>, security: Option<SecurityView>) -> Posture {
    match (mutual, security) {
        (Some(mutual), Some(security)) => if mutual {
            Posture::Mutual
        } else if security.require {
            Posture::Required
        } else {
            Posture::Offered
        },
        _ => Posture::Clear,
    }
}

/// How a door is encrypted.
pub fn transport_posture(mutual: Option<bool>, security: Option<&TransportSecurity>) -> (r: Posture)
    ensures
        r == posture(
            mutual,
            match security {
                Some(security) => Some(security@),
                None => None,
            },
        ),
{
    match (mutual, security) {
        (Some(mutual), Some(security)) => {
            if mutual {
                Posture::Mutual
            } else if security.require {
                Posture::Required
            } else {
                Posture::Offered
            }
        },
        _ => Posture::Clear,
    }
}

/// What is said of a door at startup, both ways: a server in the clear that does not mention it is
/// how an operator comes to believe their passwords are encrypted.
pub open spec fn posture_said(posture: Posture) -> Seq<char> {
    match posture {
        Posture::Clear => "unencrypted — passwords cross the network in plain text"@,
        Posture::Offered => "TLS offered; a client that does not ask is still served"@,
        Posture::Required => "TLS required"@,
        Posture::Mutual => "TLS required, and a client certificate with it"@,
    }
}

impl Posture {
    /// What is said of such a door at startup.
    pub fn said(&self) -> (r: &'static str)
        ensures
            r@ == posture_said(*self),
    {
        match self {
            Posture::Clear => "unencrypted — passwords cross the network in plain text",
            Posture::Offered => "TLS offered; a client that does not ask is still served",
            Posture::Required => "TLS required",
            Posture::Mutual => "TLS required, and a client certificate with it",
        }
    }
}

// --- maintenance ------------------------------------------------------------------------------

/// How a warehouse maintains itself.
#[derive(Clone, Copy, PartialEq, Eq, Debug, Structural)]
pub struct MaintenancePolicy {
    /// How long it waits between two ticks, in nanoseconds.
    pub interval_nanos: u128,
    /// How many ticks lie between two compactions.
    pub compact_every: u64,
    /// How many ticks lie between two sweeps for files nothing refers to.
    pub orphan_sweep_every: u64,
}

/// What was read of each setting that is more than text.
pub struct Readings {
    /// `server.require_password`.
    pub require_password: Result<Option<bool>, String>,
    /// `server.user_functions`.
    pub user_functions: Result<Option<bool>, String>,
    /// `server.tls.require`.
    pub tls_require: Result<Option<bool>, String>,
    /// `warehouse.read_as_of`.
    pub read_as_of: Result<Option<i64>, String>,
    /// `cubes.budget_rows`.
    pub budget_rows: Result<Option<i64>, String>,
    /// `maintenance.interval`, in nanoseconds.
    pub interval_nanos: Result<Option<u128>, String>,
    /// `maintenance.compact_every`.
    pub compact_every: Result<Option<i64>, String>,
    /// `maintenance.orphan_sweep_every`.
    pub orphan_sweep_every: Result<Option<i64>, String>,
}

/// What is said of a count below zero.
pub open spec fn below_zero(name: Seq<char>, value: int) -> Seq<char> {
    "`"@ + name + "` must be a number at or after zero and holds `"@ + numerals::signed_decimal(value)
        + "`. Leave it unset to keep what this server does by itself"@
}

/// The count a setting asks for, or what stands in where it asks for none.
pub open spec fn count_or(name: Seq<char>, read: Result<Option<i64>, Seq<char>>, otherwise: u64) -> Result<
    int,
    Seq<char>,
> {
    match read {
        Err(why) => Err(why),
        Ok(None) => Ok(otherwise as int),
        Ok(Some(value)) => if value < 0 {
            Err(below_zero(name, value as int))
        } else {
            Ok(value as int)
        },
    }
}

fn read_count(name: &str, read: Result<Option<i64>, String>, otherwise: u64) -> (r: Result<u64, String>)
    ensures
        (match r {
            Ok(value) => Ok::<int, Seq<char>>(value as int),
            Err(why) => Err(why@),
        }) == count_or(name@, reading(read), otherwise),
{
    match read {
        Err(why) => Err(why),
        Ok(None) => Ok(otherwise),
        Ok(Some(value)) => {
            if value < 0 {
                let mut why = "`".to_string();
                why.append(name);
                why.append("` must be a number at or after zero and holds `");
                why.append(signed_text(value).as_str());
                why.append("`. Leave it unset to keep what this server does by itself");
                Err(why)
            } else {
                Ok(value as u64)
            }
        },
    }
}

/// The maintenance that settings ask for. An interval of nothing turns it off, and then nothing
/// more of it is read.
pub open spec fn maintenance(
    interval_nanos: Result<Option<u128>, Seq<char>>,
    compact_every: Result<Option<i64>, Seq<char>>,
    orphan_sweep_every: Result<Option<i64>, Seq<char>>,
    defaults: MaintenancePolicy,
) -> Result<Option<MaintenancePolicy>, Seq<char>> {
    match interval_nanos {
        Err(why) => Err(why),
        Ok(said) => {
            let interval_nanos = match said {
                Some(interval) => interval,
                None => defaults.interval_nanos,
            };
            if interval_nanos == 0 {
                Ok(None)
            } else {
                match count_or("maintenance.compact_every"@, compact_every, defaults.compact_every) {
                    Err(why) => Err(why),
                    Ok(compact_every) => match count_or(
                        "maintenance.orphan_sweep_every"@,
                        orphan_sweep_every,
                        defaults.orphan_sweep_every,
                    ) {
                        Err(why) => Err(why),
                        Ok(orphan_sweep_every) => Ok(
                            Some(
                                MaintenancePolicy {
                                    interval_nanos,
                                    compact_every: compact_every as u64,
                                    orphan_sweep_every: orphan_sweep_every as u64,
                                },
                            ),
                        ),
                    },
                }
            }
        },
    }
}

/// The maintenance that settings ask for, at startup and whenever they are read again.
pub fn maintenance_policy(
    interval_nanos: Result<Option<u128>, String>,
    compact_every: Result<Option<i64>, String>,
    orphan_sweep_every: Result<Option<i64>, String>,
    defaults: MaintenancePolicy,
) -> (r: Result<Option<MaintenancePolicy>, String>)
    ensures
        reading(r) == maintenance(
            reading(interval_nanos),
            reading(compact_every),
            reading(orphan_sweep_every),
            defaults,
        ),
{
    let interval_nanos: u128 = match interval_nanos {
        Err(why) => {
            return Err(why);
        },
        Ok(Some(interval)) => interval,
        Ok(None) => defaults.interval_nanos,
    };
    if interval_nanos == 0 {
        return Ok(None);
    }
    let compact_every: u64 = match read_count("maintenance.compact_every", compact_every, defaults.compact_every) {
        Ok(count) => count,
        Err(why) => {
            return Err(why);
        },
    };
    let orphan_sweep_every: u64 = match read_count(
        "maintenance.orphan_sweep_every",
        orphan_sweep_every,
        defaults.orphan_sweep_every,
    ) {
        Ok(count) => count,
        Err(why) => {
            return Err(why);
        },
    };
    Ok(Some(MaintenancePolicy { interval_nanos, compact_every, orphan_sweep_every }))
}

/// What becomes of settings that are read again while a server runs.
#[derive(PartialEq, Eq, Debug)]
pub enum Reload {
    /// They could not be read, and those that run are kept: settings taken in part are settings
    /// nobody wrote.
    Refused(String),
    /// They ask for no maintenance, which a server that runs cannot be told.
    Kept,
    /// They ask for what runs.
    Unchanged(MaintenancePolicy),
    /// They ask for something else.
    Changed(MaintenancePolicy),
}

/// What becomes of settings that are read again while a server maintains its warehouse by `was`.
pub fn reload(asked: Result<Option<MaintenancePolicy>, String>, was: MaintenancePolicy) -> (r: Reload)
    ensures
        match asked {
            Err(why) => r == Reload::Refused(why),
            Ok(None) => r == Reload::Kept,
            Ok(Some(policy)) => r == (if policy == was {
                Reload::Unchanged(policy)
            } else {
                Reload::Changed(policy)
            }),
        },
{
    match asked {
        Err(why) => Reload::Refused(why),
        Ok(None) => Reload::Kept,
        Ok(Some(policy)) => {
            if policy == was {
                Reload::Unchanged(policy)
            } else {
                Reload::Changed(policy)
            }
        },
    }
}

// --- all settings -----------------------------------------------------------------------------

/// What a server is told to do.
#[derive(PartialEq, Eq, Debug)]
pub struct Settings {
    /// Where the wire-protocol front door listens.
    pub listen: String,
    /// The directory that holds `<schema>/<table>/` for every table.
    pub warehouse: String,
    /// The published position to read as of: everything up to it is visible and nothing after.
    pub read_as_of: u64,
    /// The tenant every connection belongs to.
    pub tenant: TenantId,
    /// What each named user's password is checked against. Where it names nobody, a password need
    /// only be given; where it names somebody, whoever it does not name is refused.
    pub credentials: Vec<(String, String)>,
    /// The roles each named user holds. Where it names nobody, everybody is a reader; where it
    /// names somebody, whoever it does not name holds no role.
    pub roles: Vec<(String, Vec<String>)>,
    /// How the warehouse maintains itself, where it does.
    pub maintenance: Option<MaintenancePolicy>,
    /// Where the bulk door listens, where it is served.
    pub flight_listen: Option<String>,
    /// The rows that automatic materialisation may spend on one cube.
    pub cuboid_budget_rows: u64,
    /// Where the figures are served, where they are.
    pub metrics_listen: Option<String>,
    /// Whether a connection without a password is turned away.
    pub require_password: bool,
    /// Whether aggregations that callers supply are accepted.
    pub user_functions: bool,
    /// How the doors are encrypted, where they are.
    pub transport_security: Option<TransportSecurity>,
}

/// What a server is told to do, as text.
#[verifier::ext_equal]
pub struct SettingsView {
    /// Where the wire-protocol front door listens.
    pub listen: Seq<char>,
    /// The directory that holds every table.
    pub warehouse: Seq<char>,
    /// The published position to read as of.
    pub read_as_of: int,
    /// The tenant every connection belongs to.
    pub tenant: TenantId,
    /// What each named user's password is checked against.
    pub credentials: Seq<(Seq<char>, Seq<char>)>,
    /// The roles each named user holds.
    pub roles: Seq<(Seq<char>, Seq<Seq<char>>)>,
    /// How the warehouse maintains itself, where it does.
    pub maintenance: Option<MaintenancePolicy>,
    /// Where the bulk door listens, where it is served.
    pub flight_listen: Option<Seq<char>>,
    /// The rows that automatic materialisation may spend on one cube.
    pub cuboid_budget_rows: int,
    /// Where the figures are served, where they are.
    pub metrics_listen: Option<Seq<char>>,
    /// Whether a connection without a password is turned away.
    pub require_password: bool,
    /// Whether aggregations that callers supply are accepted.
    pub user_functions: bool,
    /// How the doors are encrypted, where they are.
    pub transport_security: Option<SecurityView>,
}

/// The roles of users, as text.
pub open spec fn holders(roles: Seq<(String, Vec<String>)>) -> Seq<(Seq<char>, Seq<Seq<char>>)> {
    roles.map_values(|entry: (String, Vec<String>)| (entry.0@, text::views(entry.1@)))
}

impl View for Settings {
    type V = SettingsView;

    open spec fn view(&self) -> SettingsView {
        SettingsView {
            listen: self.listen@,
            warehouse: self.warehouse@,
            read_as_of: self.read_as_of as int,
            tenant: self.tenant,
            credentials: crate::config::pairs(self.credentials@),
            roles: holders(self.roles@),
            maintenance: self.maintenance,
            flight_listen: crate::wire::cell(self.flight_listen),
            cuboid_budget_rows: self.cuboid_budget_rows as int,
            metrics_listen: crate::wire::cell(self.metrics_listen),
            require_password: self.require_password,
            user_functions: self.user_functions,
            transport_security: match self.transport_security {
                Some(security) => Some(security@),
                None => None,
            },
        }
    }
}

/// What is said of a named file of settings that is not there.
pub open spec fn no_such_file(file: Seq<char>) -> Seq<char> {
    "the configuration file `"@ + file
        + "` named by SANKHYA_CONFIG does not exist.                      Refused rather than skipped: a named file that is not read is a server                      with no users, no roles and no policy that believes it is configured"@
}

/// The first of some files that is not there.
pub open spec fn first_absent(files: Seq<(Seq<char>, bool)>) -> Option<Seq<char>>
    decreases files.len(),
{
    if files.len() == 0 {
        None
    } else if !files[0].1 {
        Some(files[0].0)
    } else {
        first_absent(files.skip(1))
    }
}

/// Whether the files of settings may be read: where an operator named them, each must be there.
/// The default file may be missing, for a server run from a shell has none.
pub fn check_files(named: bool, files: &Vec<(String, bool)>) -> (r: Result<(), String>)
    ensures
        (match r {
            Ok(()) => None::<Seq<char>>,
            Err(why) => Some(why@),
        }) == (if named {
            match first_absent(files@.map_values(|file: (String, bool)| (file.0@, file.1))) {
                Some(file) => Some(no_such_file(file)),
                None => None,
            }
        } else {
            None
        }),
{
    if !named {
        return Ok(());
    }
    let ghost all = files@.map_values(|file: (String, bool)| (file.0@, file.1));
    let mut i: usize = 0;
    assert(all.skip(0) =~= all);
    while i < files.len()
        invariant
            i <= files@.len(),
            named,
            all == files@.map_values(|file: (String, bool)| (file.0@, file.1)),
            first_absent(all) == first_absent(all.skip(i as int)),
        decreases files@.len() - i,
    {
        assert(all.skip(i as int).skip(1) =~= all.skip(i + 1));
        if !files[i].1 {
            let mut why = "the configuration file `".to_string();
            why.append(files[i].0.as_str());
            why.append(
                "` named by SANKHYA_CONFIG does not exist.                      Refused rather than skipped: a named file that is not read is a server                      with no users, no roles and no policy that believes it is configured",
            );
            return Err(why);
        }
        i = i + 1;
    }
    Ok(())
}

/// The texts that are not empty, trimmed.
pub open spec fn trimmed_names(parts: Seq<Seq<char>>) -> Seq<Seq<char>>
    decreases parts.len(),
{
    if parts.len() == 0 {
        Seq::empty()
    } else {
        let before = trimmed_names(parts.drop_last());
        let name = text::trimmed(parts.last());
        if name.len() == 0 {
            before
        } else {
            before.push(name)
        }
    }
}

/// The roles that a list with commas names.
pub fn roles_named(list: &str) -> (r: Vec<String>)
    ensures
        text::views(r@) == trimmed_names(text::split_on(list@, ',')),
{
    let parts = split(list, ',');
    let ghost all = text::views(parts@);
    let mut r: Vec<String> = Vec::new();
    let mut i: usize = 0;
    assert(text::views(r@) =~= trimmed_names(all.take(0)));
    while i < parts.len()
        invariant
            i <= parts@.len(),
            all == text::views(parts@),
            text::views(r@) == trimmed_names(all.take(i as int)),
        decreases parts@.len() - i,
    {
        assert(all.take(i + 1).drop_last() =~= all.take(i as int));
        let name = trim(parts[i].as_str());
        if !name.as_str().is_empty() {
            let ghost was = r@;
            let ghost added = name@;
            r.push(name);
            assert(text::views(r@) =~= text::views(was).push(added));
        }
        i = i + 1;
    }
    assert(all.take(all.len() as int) =~= all);
    r
}

/// The roles that each user is named for.
pub open spec fn roles_of(users: Seq<(Seq<char>, Seq<char>)>) -> Seq<(Seq<char>, Seq<Seq<char>>)> {
    users.map_values(
        |user: (Seq<char>, Seq<char>)| (user.0, trimmed_names(text::split_on(user.1, ','))),
    )
}

fn read_roles(users: &Configuration) -> (r: Vec<(String, Vec<String>)>)
    ensures
        holders(r@) == roles_of(users.listing()),
{
    let entries = users.entries();
    let mut r: Vec<(String, Vec<String>)> = Vec::new();
    let mut i: usize = 0;
    let ghost expected = roles_of(users.listing());
    while i < entries.len()
        invariant
            i <= entries@.len(),
            r@.len() == i,
            crate::config::pairs(entries@) == users.listing(),
            expected == roles_of(users.listing()),
            forall|k: int| 0 <= k < i ==> holders(r@)[k] == #[trigger] expected[k],
        decreases entries@.len() - i,
    {
        let ghost was = r@;
        r.push((entries[i].0.clone(), roles_named(entries[i].1.as_str())));
        assert(crate::config::pairs(entries@)[i as int] == (entries@[i as int].0@, entries@[i as int].1@));
        assert forall|k: int| 0 <= k < i + 1 implies holders(r@)[k] == #[trigger] expected[k] by {
            if k < i {
                assert(holders(was)[k] == expected[k]);
            }
        }
        i = i + 1;
    }
    assert(holders(r@) =~= expected);
    r
}

/// What is said of a credential that is none.
pub open spec fn no_verifier(user: Seq<char>, why: Seq<char>) -> Seq<char> {
    "`server.credentials."@ + user + "` is not a password verifier: "@ + why
        + ". Make one with `sankhya-server hash-password`"@
}

/// A credential as it was read, as text.
pub open spec fn credential(read: (String, Result<String, String>)) -> (Seq<char>, Result<Seq<char>, Seq<char>>) {
    (
        read.0@,
        match read.1 {
            Ok(verifier) => Ok(verifier@),
            Err(why) => Err(why@),
        },
    )
}

/// What each user's password is checked against, or what is said of the first credential that is
/// none.
pub open spec fn verifiers(read: Seq<(Seq<char>, Result<Seq<char>, Seq<char>>)>) -> Result<
    Seq<(Seq<char>, Seq<char>)>,
    Seq<char>,
>
    decreases read.len(),
{
    if read.len() == 0 {
        Ok(Seq::empty())
    } else {
        match verifiers(read.drop_last()) {
            Err(why) => Err(why),
            Ok(before) => match read.last().1 {
                Ok(verifier) => Ok(before.push((read.last().0, verifier))),
                Err(why) => Err(no_verifier(read.last().0, why)),
            },
        }
    }
}

proof fn lemma_verifiers_stop(read: Seq<(Seq<char>, Result<Seq<char>, Seq<char>>)>, i: int)
    requires
        0 <= i <= read.len(),
        verifiers(read.take(i)) is Err,
    ensures
        verifiers(read) == verifiers(read.take(i)),
    decreases read.len(),
{
    if i < read.len() {
        assert(read.drop_last().take(i) =~= read.take(i));
        lemma_verifiers_stop(read.drop_last(), i);
    } else {
        assert(read.take(i) =~= read);
    }
}

fn read_credentials(read: &Vec<(String, Result<String, String>)>) -> (r: Result<Vec<(String, String)>, String>)
    ensures
        (match r {
            Ok(list) => Ok::<Seq<(Seq<char>, Seq<char>)>, Seq<char>>(crate::config::pairs(list@)),
            Err(why) => Err(why@),
        }) == verifiers(read@.map_values(|c: (String, Result<String, String>)| credential(c))),
{
    let ghost all = read@.map_values(|c: (String, Result<String, String>)| credential(c));
    let mut list: Vec<(String, String)> = Vec::new();
    let mut i: usize = 0;
    assert(crate::config::pairs(list@) =~= Seq::empty());
    while i < read.len()
        invariant
            i <= read@.len(),
            all == read@.map_values(|c: (String, Result<String, String>)| credential(c)),
            verifiers(all.take(i as int)) == Ok::<Seq<(Seq<char>, Seq<char>)>, Seq<char>>(
                crate::config::pairs(list@),
            ),
        decreases read@.len() - i,
    {
        assert(all.take(i + 1).drop_last() =~= all.take(i as int));
        match &read[i].1 {
            Ok(verifier) => {
                let ghost was = list@;
                let ghost pair = (read@[i as int].0@, verifier@);
                list.push((read[i].0.clone(), verifier.clone()));
                assert(crate::config::pairs(list@) =~= crate::config::pairs(was).push(pair));
            },
            Err(why) => {
                let mut said = "`server.credentials.".to_string();
                said.append(read[i].0.as_str());
                said.append("` is not a password verifier: ");
                said.append(why.as_str());
                said.append(". Make one with `sankhya-server hash-password`");
                proof {
                    lemma_verifiers_stop(all, i + 1);
                }
                return Err(said);
            },
        }
        i = i + 1;
    }
    assert(all.take(all.len() as int) =~= all);
    Ok(list)
}

/// The position to read as of: everything published, where none is set.
pub open spec fn position(read: Result<Option<i64>, Seq<char>>) -> Result<int, Seq<char>> {
    match read {
        Err(why) => Err(why),
        Ok(None) => Ok(u64::MAX as int),
        Ok(Some(value)) => if value < 0 {
            Err(
                "`warehouse.read_as_of` must be a position at or after zero and holds `"@
                    + numerals::signed_decimal(value as int) + "`. Leave it unset to read everything published"@,
            )
        } else {
            Ok(value as int)
        },
    }
}

fn read_position(read: Result<Option<i64>, String>) -> (r: Result<u64, String>)
    ensures
        (match r {
            Ok(value) => Ok::<int, Seq<char>>(value as int),
            Err(why) => Err(why@),
        }) == position(reading(read)),
{
    match read {
        Err(why) => Err(why),
        Ok(None) => Ok(u64::MAX),
        Ok(Some(value)) => {
            if value < 0 {
                let mut why = "`warehouse.read_as_of` must be a position at or after zero and holds `".to_string();
                why.append(signed_text(value).as_str());
                why.append("`. Leave it unset to read everything published");
                Err(why)
            } else {
                Ok(value as u64)
            }
        },
    }
}

/// A switch as it was read, or what stands in where it is not set.
pub open spec fn switch(read: Option<bool>, otherwise: bool) -> bool {
    match read {
        Some(value) => value,
        None => otherwise,
    }
}

/// What a server is told to do by settings as they were read, or the first reason to refuse them.
pub open spec fn settled(
    config: Map<Seq<char>, Seq<char>>,
    readings: Readings,
    users: Seq<(Seq<char>, Seq<char>)>,
    credentials: Seq<(Seq<char>, Result<Seq<char>, Seq<char>>)>,
    defaults: MaintenancePolicy,
    tenant: TenantId,
) -> Result<SettingsView, Seq<char>> {
    match reading(readings.require_password) {
        Err(why) => Err(why),
        Ok(require_password) => match reading(readings.user_functions) {
            Err(why) => Err(why),
            Ok(user_functions) => match position(reading(readings.read_as_of)) {
                Err(why) => Err(why),
                Ok(read_as_of) => match maintenance(
                    reading(readings.interval_nanos),
                    reading(readings.compact_every),
                    reading(readings.orphan_sweep_every),
                    defaults,
                ) {
                    Err(why) => Err(why),
                    Ok(maintenance) => match count_or(
                        "cubes.budget_rows"@,
                        reading(readings.budget_rows),
                        CUBOID_ROW_BUDGET,
                    ) {
                        Err(why) => Err(why),
                        Ok(cuboid_budget_rows) => match verifiers(credentials) {
                            Err(why) => Err(why),
                            Ok(credentials) => match encryption(config, reading(readings.tls_require)) {
                                Err(why) => Err(why),
                                Ok(transport_security) => Ok(
                                    SettingsView {
                                        listen: held_or(config, "server.listen"@, "127.0.0.1:5433"@),
                                        warehouse: held_or(config, "warehouse.path"@, "./warehouse"@),
                                        read_as_of,
                                        tenant,
                                        credentials,
                                        roles: roles_of(users),
                                        maintenance,
                                        flight_listen: Some(
                                            held_or(config, "server.flight_listen"@, "127.0.0.1:5434"@),
                                        ),
                                        cuboid_budget_rows,
                                        metrics_listen: Some(
                                            held_or(config, "server.metrics_listen"@, "127.0.0.1:9464"@),
                                        ),
                                        require_password: switch(require_password, true),
                                        user_functions: switch(user_functions, false),
                                        transport_security,
                                    },
                                ),
                            },
                        },
                    },
                },
            },
        },
    }
}

/// What a server is told to do: `config` holds the settings as text, `readings` those that are more
/// than text as they were read, `users` and `credentials` the two sections of that name.
pub fn settings(
    config: &Configuration,
    readings: Readings,
    users: &Configuration,
    credentials: &Vec<(String, Result<String, String>)>,
    defaults: MaintenancePolicy,
    tenant: TenantId,
) -> (r: Result<Settings, String>)
    ensures
        (match r {
            Ok(settings) => Ok::<SettingsView, Seq<char>>(settings@),
            Err(why) => Err(why@),
        }) == settled(
            config@,
            readings,
            users.listing(),
            credentials@.map_values(|c: (String, Result<String, String>)| credential(c)),
            defaults,
            tenant,
        ),
{
    let require_password: bool = match readings.require_password {
        Err(why) => {
            return Err(why);
        },
        Ok(Some(value)) => value,
        Ok(None) => true,
    };
    let user_functions: bool = match readings.user_functions {
        Err(why) => {
            return Err(why);
        },
        Ok(Some(value)) => value,
        Ok(None) => false,
    };
    let read_as_of: u64 = match read_position(readings.read_as_of) {
        Err(why) => {
            return Err(why);
        },
        Ok(position) => position,
    };
    let maintenance = match maintenance_policy(
        readings.interval_nanos,
        readings.compact_every,
        readings.orphan_sweep_every,
        defaults,
    ) {
        Err(why) => {
            return Err(why);
        },
        Ok(policy) => policy,
    };
    let cuboid_budget_rows: u64 = match read_count("cubes.budget_rows", readings.budget_rows, CUBOID_ROW_BUDGET) {
        Err(why) => {
            return Err(why);
        },
        Ok(count) => count,
    };
    let roles = read_roles(users);
    let credentials = match read_credentials(credentials) {
        Err(why) => {
            return Err(why);
        },
        Ok(list) => list,
    };
    let transport_security = match transport_security(config, readings.tls_require) {
        Err(why) => {
            return Err(why);
        },
        Ok(security) => security,
    };
    let r = Settings {
        listen: copy_or(config, "server.listen", "127.0.0.1:5433"),
        warehouse: copy_or(config, "warehouse.path", "./warehouse"),
        read_as_of,
        tenant,
        credentials,
        roles,
        maintenance,
        flight_listen: Some(copy_or(config, "server.flight_listen", "127.0.0.1:5434")),
        cuboid_budget_rows,
        metrics_listen: Some(copy_or(config, "server.metrics_listen", "127.0.0.1:9464")),
        require_password,
        user_functions,
        transport_security,
    };
    Ok(r)
}

// --- the environment --------------------------------------------------------------------------

/// The files that settings are read from, lowest precedence first: those an operator named, with
/// commas between, or the one beside the working directory.
pub fn configuration_files(named: Option<&str>) -> (r: Vec<String>)
    ensures
        text::views(r@) == (match named {
            None => seq!["config/application.yaml"@],
            Some(list) => text::split_on(list@, ','),
        }),
{
    match named {
        None => {
            let mut r: Vec<String> = Vec::new();
            r.push("config/application.yaml".to_string());
            assert(text::views(r@) =~= seq!["config/application.yaml"@]);
            r
        },
        Some(list) => split(list, ','),
    }
}

/// The directory that the first of the files lies in, or `config` where it lies in none.
pub open spec fn directory_of(files: Seq<(bool, Seq<Seq<char>>)>) -> (bool, Seq<Seq<char>>) {
    if files.len() == 0 {
        (false, seq!["config"@])
    } else {
        match warehouse::parent(files[0]) {
            Some(place) => place,
            None => (false, seq!["config"@]),
        }
    }
}

/// The directory that settings are read from: that of the first file, rather than one configured
/// beside it, because two settings that must agree are two that will one day not.
pub fn configuration_dir(files: &Vec<Place>) -> (r: Place)
    ensures
        r@ == directory_of(files@.map_values(|file: Place| file@)),
{
    if files.len() > 0 {
        if let Some(place) = files[0].parent() {
            return place;
        }
    }
    let mut parts: Vec<String> = Vec::new();
    parts.push("config".to_string());
    assert(text::views(parts@) =~= seq!["config"@]);
    Place { absolute: false, parts }
}

/// The setting that each documented variable of the environment stands for.
pub open spec fn mapped() -> Seq<(Seq<char>, Seq<char>)> {
    seq![
        ("SANKHYA_LISTEN"@, "server.listen"@),
        ("SANKHYA_METRICS_LISTEN"@, "server.metrics_listen"@),
        ("SANKHYA_WAREHOUSE"@, "warehouse.path"@),
        ("SANKHYA_READ_AS_OF"@, "warehouse.read_as_of"@),
        ("SANKHYA_DATA_DIR"@, "data.dir"@),
        ("SANKHYA_USER_FUNCTIONS"@, "server.user_functions"@),
    ]
}

/// The settings that these variables set, each in turn.
pub open spec fn set_by(variables: Map<Seq<char>, Seq<char>>, list: Seq<(Seq<char>, Seq<char>)>) -> Map<
    Seq<char>,
    Seq<char>,
>
    decreases list.len(),
{
    if list.len() == 0 {
        Map::empty()
    } else {
        let before = set_by(variables, list.drop_last());
        if variables.contains_key(list.last().0) {
            before.insert(list.last().1, variables[list.last().0])
        } else {
            before
        }
    }
}

/// The settings that the environment sets. Going without a password is spelled as an opt-out, so
/// that the insecure choice is deliberate: that the variable is there is the signal, whatever it
/// holds.
pub open spec fn environment_settings(variables: Map<Seq<char>, Seq<char>>) -> Map<Seq<char>, Seq<char>> {
    let named = set_by(variables, mapped());
    if variables.contains_key("SANKHYA_NO_PASSWORD"@) {
        named.insert("server.require_password"@, "false"@)
    } else {
        named
    }
}

fn mapped_names() -> (r: Vec<(&'static str, &'static str)>)
    ensures
        r@.map_values(|m: (&'static str, &'static str)| (m.0@, m.1@)) == mapped(),
{
    let mut r: Vec<(&'static str, &'static str)> = Vec::new();
    r.push(("SANKHYA_LISTEN", "server.listen"));
    r.push(("SANKHYA_METRICS_LISTEN", "server.metrics_listen"));
    r.push(("SANKHYA_WAREHOUSE", "warehouse.path"));
    r.push(("SANKHYA_READ_AS_OF", "warehouse.read_as_of"));
    r.push(("SANKHYA_DATA_DIR", "data.dir"));
    r.push(("SANKHYA_USER_FUNCTIONS", "server.user_functions"));
    assert(r@.map_values(|m: (&'static str, &'static str)| (m.0@, m.1@)) =~= mapped());
    r
}

/// The settings that the environment sets: the documented variables and no others, because an
/// environment holds a great many that have nothing to do with this server.
pub fn legacy_environment(variables: &Configuration) -> (r: Configuration)
    ensures
        r@ == environment_settings(variables@),
{
    let names = mapped_names();
    let mut r = Configuration::new();
    let mut i: usize = 0;
    while i < names.len()
        invariant
            i <= names@.len(),
            names@.map_values(|m: (&'static str, &'static str)| (m.0@, m.1@)) == mapped(),
            r@ == set_by(variables@, mapped().take(i as int)),
        decreases names@.len() - i,
    {
        assert(mapped().take(i + 1).drop_last() =~= mapped().take(i as int));
        assert(mapped()[i as int] == (names@[i as int].0@, names@[i as int].1@));
        if let Some(value) = variables.get(names[i].0) {
            r.insert(names[i].1.to_string(), value.clone());
        }
        i = i + 1;
    }
    assert(mapped().take(mapped().len() as int) =~= mapped());
    if variables.get("SANKHYA_NO_PASSWORD").is_some() {
        r.insert("server.require_password".to_string(), "false".to_string());
    }
    r
}

/// Where a server keeps what it observes: where an operator named, or beside the warehouse rather
/// than inside it, because the warehouse is what is being diagnosed.
pub fn data_dir(named: Option<Place>, warehouse: &Place) -> (r: Place)
    ensures
        r@ == (match named {
            Some(place) => place@,
            None => warehouse::inside(
                match warehouse::parent(warehouse@) {
                    Some(place) => place,
                    None => (false, seq!["."@]),
                },
                ".sankhya"@,
            ),
        }),
{
    match named {
        Some(place) => place,
        None => match warehouse.parent() {
            Some(place) => place.inside(".sankhya"),
            None => {
                let mut parts: Vec<String> = Vec::new();
                parts.push(".".to_string());
                let here = Place { absolute: false, parts };
                assert(text::views(here.parts@) =~= seq!["."@]);
                here.inside(".sankhya")
            },
        },
    }
}

/// How often each feed looks at its directory, in seconds, where nobody says otherwise.
pub const FEED_INTERVAL_SECONDS: u64 = 30;

/// How often each feed looks at its directory, in seconds, and what is said of a value that cannot
/// be taken: neither nothing, which would be a loop with no sleep in it, nor what is no number.
pub fn feed_interval_seconds(set: Option<&str>) -> (r: (u64, Option<String>))
    ensures
        match set {
            None => r.0 == FEED_INTERVAL_SECONDS && r.1 is None,
            Some(value) => match numerals::natural(text::trimmed(value@), u64::MAX as int) {
                Some(seconds) if seconds > 0 => r.0 == seconds && r.1 is None,
                _ => r.0 == FEED_INTERVAL_SECONDS && crate::wire::cell(r.1) == Some(
                    "  SANKHYA_FEED_INTERVAL_SECONDS is `"@ + value@
                        + "`, which is not a number of seconds greater than zero — using "@ + numerals::decimal(
                        FEED_INTERVAL_SECONDS as nat,
                    ),
                ),
            },
        },
        r.0 > 0,
{
    match set {
        None => (FEED_INTERVAL_SECONDS, None),
        Some(value) => {
            if let Some(seconds) = parse_natural(trim(value).as_str()) {
                if seconds > 0 {
                    return (seconds, None);
                }
            }
            let mut said = "  SANKHYA_FEED_INTERVAL_SECONDS is `".to_string();
            said.append(value);
            said.append("`, which is not a number of seconds greater than zero — using ");
            said.append(numerals::decimal_text(FEED_INTERVAL_SECONDS).as_str());
            (FEED_INTERVAL_SECONDS, Some(said))
        },
    }
}

// --- clocks -----------------------------------------------------------------------------------

/// The time in microseconds, or zero where the clock stands before the epoch or past what can be
/// counted.
pub fn now_micros(since_epoch: Option<u128>) -> (r: i64)
    ensures
        r == (match since_epoch {
            Some(micros) if micros <= i64::MAX => micros as int,
            _ => 0,
        }),
{
    match since_epoch {
        Some(micros) => {
            if micros <= i64::MAX as u128 {
                micros as i64
            } else {
                0
            }
        },
        None => 0,
    }
}

/// Today, as days since the epoch: whole days, so that expiry is decided on the boundary that
/// partitions are written on.
pub fn today(seconds_since_epoch: Option<u64>) -> (r: i32)
    ensures
        r == (match seconds_since_epoch {
            Some(seconds) if seconds / 86_400 <= i32::MAX => (seconds / 86_400) as int,
            _ => 0,
        }),
{
    match seconds_since_epoch {
        Some(seconds) => {
            let days: u64 = seconds / 86_400;
            if days <= i32::MAX as u64 {
                days as i32
            } else {
                0
            }
        },
        None => 0,
    }
}

// --- subcommands ------------------------------------------------------------------------------

/// What a server is run for.
#[derive(PartialEq, Eq, Debug)]
pub enum Command {
    /// To say what it can be run for.
    Help,
    /// To say its version.
    Version,
    /// To turn a password into what it is checked against.
    HashPassword,
    /// To report on the warehouse.
    Doctor,
    /// To take a backup.
    Backup,
    /// To restore a backup and prove that it reads.
    Drill,
    /// To attest a backup store.
    Attest(Option<String>),
    /// To serve.
    Serve,
    /// For something it does not know.
    Unrecognised(String),
}

/// What a command line asks for, by its first argument and the one behind it. What is not known is
/// refused: a typo that serves is a second server on one warehouse.
pub open spec fn asks(first: Option<Seq<char>>, second: Option<String>, r: Command) -> bool {
    match first {
        None => r == Command::Serve,
        Some(word) => if word == "--help"@ || word == "-h"@ || word == "help"@ {
            r == Command::Help
        } else if word == "--version"@ || word == "-V"@ || word == "version"@ {
            r == Command::Version
        } else if word == "hash-password"@ {
            r == Command::HashPassword
        } else if word == "doctor"@ {
            r == Command::Doctor
        } else if word == "backup"@ {
            r == Command::Backup
        } else if word == "drill"@ {
            r == Command::Drill
        } else if word == "attest"@ {
            r == Command::Attest(second)
        } else if word == "start"@ {
            r == Command::Serve
        } else {
            r is Unrecognised && (r->Unrecognised_0)@ == "sankhya: `"@ + word
                + "` is not a subcommand of this binary\n\n"@ + USAGE@
        },
    }
}

/// What a command line asks for.
pub fn command(first: Option<&str>, second: Option<String>) -> (r: Command)
    ensures
        asks(
            match first {
                Some(word) => Some(word@),
                None => None,
            },
            second,
            r,
        ),
{
    let word = match first {
        None => {
            return Command::Serve;
        },
        Some(word) => word,
    };
    if same(word, "--help") || same(word, "-h") || same(word, "help") {
        Command::Help
    } else if same(word, "--version") || same(word, "-V") || same(word, "version") {
        Command::Version
    } else if same(word, "hash-password") {
        Command::HashPassword
    } else if same(word, "doctor") {
        Command::Doctor
    } else if same(word, "backup") {
        Command::Backup
    } else if same(word, "drill") {
        Command::Drill
    } else if same(word, "attest") {
        Command::Attest(second)
    } else if same(word, "start") {
        Command::Serve
    } else {
        let mut why = "sankhya: `".to_string();
        why.append(word);
        why.append("` is not a subcommand of this binary\n\n");
        why.append(USAGE);
        Command::Unrecognised(why)
    }
}

/// A line without the one character it ends in, where it ends in it.
pub open spec fn without_last(line: Seq<char>, c: char) -> Seq<char> {
    if line.len() > 0 && line.last() == c {
        line.drop_last()
    } else {
        line
    }
}

/// The password that a line holds: the line without its end and nothing else taken off, because a
/// password may begin or end with a space. An empty one is none.
pub fn password_typed(line: &str) -> (r: Option<String>)
    ensures
        crate::wire::cell(r) == ({
            let password = without_last(without_last(line@, '\n'), '\r');
            if password.len() == 0 {
                None
            } else {
                Some(password)
            }
        }),
{
    let chars = text::chars_of(line);
    let mut end: usize = chars.len();
    assert(chars@.take(end as int) =~= line@);
    if end > 0 && chars[end - 1] == '\n' {
        end = end - 1;
        assert(chars@.take(end as int) =~= line@.drop_last());
    }
    let ghost unbroken = without_last(line@, '\n');
    assert(chars@.take(end as int) == unbroken);
    if end > 0 && chars[end - 1] == '\r' {
        end = end - 1;
        assert(chars@.take(end as int) =~= unbroken.drop_last());
    }
    if end == 0 {
        return None;
    }
    let password = text::text_between(&chars, 0, end);
    assert(chars@.subrange(0, end as int) =~= chars@.take(end as int));
    Some(password)
}

/// The line that tells an operator how to connect, by the address that was bound.
pub fn connect_with(bound: &str) -> (r: String)
    ensures
        r@ == ({
            let (host, port) = match text::split_at_last(bound@, ':') {
                Some((host, port)) => (host, port),
                None => ("127.0.0.1"@, "5433"@),
            };
            "  connect with: psql -h "@ + host + " -p "@ + port + " -U <user>"@
        }),
{
    let (host, port) = match split_last(bound, ':') {
        Some((host, port)) => (host, port),
        None => ("127.0.0.1".to_string(), "5433".to_string()),
    };
    let mut r = "  connect with: psql -h ".to_string();
    r.append(host.as_str());
    r.append(" -p ");
    r.append(port.as_str());
    r.append(" -U <user>");
    r
}

/// The server encrypts exactly where both halves of the door are set and the demand can be read; with neither
/// it does not, and with one alone it does not start. A door that does not say so demands encryption.
pub proof fn doors_are_whole_or_shut(config: Map<Seq<char>, Seq<char>>, require: Result<Option<bool>, Seq<char>>)
    ensures
        ({
            let certificate = config.contains_key("server.tls.certificate"@);
            let private_key = config.contains_key("server.tls.private_key"@);
            &&& encryption(config, require) == Ok::<Option<SecurityView>, Seq<char>>(None) <==> !certificate
                && !private_key
            &&& certificate != private_key ==> encryption(config, require) is Err
            &&& certificate && private_key ==> match encryption(config, require) {
                Ok(Some(door)) => {
                    &&& require is Ok
                    &&& door.certificate == config["server.tls.certificate"@]
                    &&& door.private_key == config["server.tls.private_key"@]
                    &&& door.client_ca is Some <==> config.contains_key("server.tls.client_ca"@)
                    &&& door.client_ca is Some ==> door.client_ca == Some(config["server.tls.client_ca"@])
                    &&& door.require <==> require->Ok_0 != Some(false)
                },
                Ok(None) => false,
                Err(why) => require == Err::<Option<bool>, Seq<char>>(why),
            }
        }),
{
}

/// A server without a key or without a door stands in the clear; one that asks for certificates is mutual; and
/// of the others those that demand encryption require it, and the rest offer it.
pub proof fn postures_follow_the_door(mutual: Option<bool>, security: Option<SecurityView>)
    ensures
        posture(mutual, security) is Clear <==> mutual is None || security is None,
        posture(mutual, security) is Mutual <==> mutual == Some(true) && security is Some,
        posture(mutual, security) is Required <==> mutual == Some(false) && security is Some && (security->0).require,
        posture(mutual, security) is Offered <==> mutual == Some(false) && security is Some && !(security->0).require,
{
}

/// Each posture is said in words of its own: that nothing is encrypted exactly where nothing is, and that a
/// client certificate is asked for exactly where it is.
pub proof fn postures_are_said_apart(posture: Posture)
    ensures
        posture_said(posture) == "unencrypted — passwords cross the network in plain text"@ <==> posture is Clear,
        posture_said(posture) == "TLS offered; a client that does not ask is still served"@ <==> posture is Offered,
        posture_said(posture) == "TLS required"@ <==> posture is Required,
        posture_said(posture) == "TLS required, and a client certificate with it"@ <==> posture is Mutual,
{
    reveal_strlit("unencrypted — passwords cross the network in plain text");
    reveal_strlit("TLS offered; a client that does not ask is still served");
    reveal_strlit("TLS required");
    reveal_strlit("TLS required, and a client certificate with it");
    let clear = "unencrypted — passwords cross the network in plain text"@;
    let offered = "TLS offered; a client that does not ask is still served"@;
    assert(clear[0] == 'u' && offered[0] == 'T');
    assert("TLS required"@[0] == 'T' && "TLS required, and a client certificate with it"@[0] == 'T');
    assert("TLS required"@.len() != "TLS required, and a client certificate with it"@.len());
    assert(offered[4] == 'o' && "TLS required"@[4] == 'r' && "TLS required, and a client certificate with it"@[4] == 'r');
}

/// A count is what was read where it is not below zero, what stands by default where nothing was read, and
/// refused otherwise.
pub proof fn counts_are_not_below_zero(name: Seq<char>, read: Result<Option<i64>, Seq<char>>, otherwise: u64)
    ensures
        match count_or(name, read, otherwise) {
            Ok(value) => value >= 0 && (read == Ok::<Option<i64>, Seq<char>>(None) && value == otherwise || read is Ok
                && read->Ok_0 is Some && value == (read->Ok_0)->0),
            Err(_) => read is Err || read->Ok_0 is Some && (read->Ok_0)->0 < 0,
        },
        read matches Err(why) ==> count_or(name, read, otherwise) == Err::<int, Seq<char>>(why),
{
}

/// Maintenance is off exactly where its interval is nought; else it is as often as was asked, and by default
/// where nothing was.
pub proof fn maintenance_is_as_asked(
    interval: Result<Option<u128>, Seq<char>>,
    compact: Result<Option<i64>, Seq<char>>,
    sweep: Result<Option<i64>, Seq<char>>,
    defaults: MaintenancePolicy,
)
    ensures
        match maintenance(interval, compact, sweep, defaults) {
            Ok(None) => interval == Ok::<Option<u128>, Seq<char>>(Some(0)) || interval == Ok::<
                Option<u128>,
                Seq<char>,
            >(None) && defaults.interval_nanos == 0,
            Ok(Some(policy)) => {
                &&& interval is Ok && compact is Ok && sweep is Ok
                &&& policy.interval_nanos > 0
                &&& interval->Ok_0 is Some ==> (interval->Ok_0)->0 == policy.interval_nanos
                &&& interval->Ok_0 is None ==> defaults.interval_nanos == policy.interval_nanos
                &&& compact->Ok_0 is Some ==> (compact->Ok_0)->0 == policy.compact_every
                &&& compact->Ok_0 is None ==> defaults.compact_every == policy.compact_every
                &&& sweep->Ok_0 is Some ==> (sweep->Ok_0)->0 == policy.orphan_sweep_every
                &&& sweep->Ok_0 is None ==> defaults.orphan_sweep_every == policy.orphan_sweep_every
            },
            Err(_) => interval is Err || compact is Err || sweep is Err || compact->Ok_0 is Some && (compact->Ok_0)->0 < 0
                || sweep->Ok_0 is Some && (sweep->Ok_0)->0 < 0,
        },
        interval == Ok::<Option<u128>, Seq<char>>(Some(0)) ==> maintenance(interval, compact, sweep, defaults) == Ok::<
            Option<MaintenancePolicy>,
            Seq<char>,
        >(None),
{
}

/// The first file that is not there is found, and none where all are.
pub proof fn absent_files_are_found(files: Seq<(Seq<char>, bool)>)
    ensures
        match first_absent(files) {
            Some(found) => exists|i: int| #![trigger files[i]] lists::first_at(files, i, |f: (Seq<char>, bool)| !f.1)
                && found == files[i].0,
            None => lists::nowhere(files, |f: (Seq<char>, bool)| !f.1),
        },
    decreases files.len(),
{
    let p = |f: (Seq<char>, bool)| !f.1;
    if files.len() > 0 {
        lists::lemma_first_behind(files, p);
        if p(files[0]) {
            assert(lists::first_at(files, 0, p));
        } else {
            absent_files_are_found(files.skip(1));
            if let Some(found) = first_absent(files.skip(1)) {
                let i = choose|i: int| #![trigger files.skip(1)[i]] lists::first_at(files.skip(1), i, p)
                    && found == files.skip(1)[i].0;
                assert(lists::first_at(files, i + 1, p));
                assert(files[i + 1] == files.skip(1)[i]);
            }
        }
    }
}

/// The names of a list are its parts without the white space around them, in order, and no empty one.
pub proof fn names_are_what_is_written_between(parts: Seq<Seq<char>>)
    ensures
        lists::picked_from(parts, trimmed_names(parts), |part: Seq<char>, name: Seq<char>| name == text::trimmed(part)
            && name.len() > 0),
    decreases parts.len(),
{
    let p = |part: Seq<char>, name: Seq<char>| name == text::trimmed(part) && name.len() > 0;
    if parts.len() == 0 {
        lists::lemma_picked_none::<Seq<char>, Seq<char>>(p);
        assert(parts =~= Seq::empty());
    } else {
        names_are_what_is_written_between(parts.drop_last());
        let earlier = trimmed_names(parts.drop_last());
        let last = parts.last();
        if text::trimmed(last).len() > 0 {
            lists::lemma_picked_one(parts, earlier, p, text::trimmed(last));
        } else {
            lists::lemma_passed_over(parts, earlier, p);
        }
    }
}

/// A user holds the roles that are written for them, with commas between.
pub proof fn users_hold_the_roles_written_for_them(
    users: Seq<(Seq<char>, Seq<char>)>,
    i: int,
    user: Seq<char>,
    names: Seq<Seq<char>>,
)
    requires
        0 <= i < users.len(),
        names.len() > 0,
        forall|k: int|
            0 <= k < names.len() ==> (#[trigger] names[k]).len() > 0 && !text::is_space(names[k][0]) && !text::is_space(
                names[k].last(),
            ) && !names[k].contains(','),
        users[i] == (user, text::joined(names, seq![','])),
    ensures
        roles_of(users).len() == users.len(),
        roles_of(users)[i] == (user, names),
{
    text::joined_parts_come_back(names, ',');
    lemma_names_kept(names);
}

proof fn lemma_names_kept(names: Seq<Seq<char>>)
    requires
        forall|k: int|
            0 <= k < names.len() ==> (#[trigger] names[k]).len() > 0 && !text::is_space(names[k][0]) && !text::is_space(
                names[k].last(),
            ),
    ensures
        trimmed_names(names) == names,
    decreases names.len(),
{
    if names.len() > 0 {
        let before = names.drop_last();
        assert forall|k: int| 0 <= k < before.len() implies (#[trigger] before[k]).len() > 0 && !text::is_space(
            before[k][0],
        ) && !text::is_space(before[k].last()) by {
            assert(names[k].len() > 0);
        }
        lemma_names_kept(before);
        assert(names[names.len() - 1].len() > 0);
        text::lemma_trimmed_already(names.last());
        assert(before.push(names.last()) =~= names);
    }
}

/// Credentials are read exactly where each is a verifier, and are those, user by user; else the first that is
/// not is said, with its user.
pub proof fn credentials_are_read_together(read: Seq<(Seq<char>, Result<Seq<char>, Seq<char>>)>)
    ensures
        match verifiers(read) {
            Ok(list) => list.len() == read.len() && forall|i: int|
                0 <= i < read.len() ==> (#[trigger] read[i]).1 is Ok && list[i] == (read[i].0, read[i].1->Ok_0),
            Err(why) => exists|i: int|
                #![trigger read[i]]
                lists::first_at(read, i, |r: (Seq<char>, Result<Seq<char>, Seq<char>>)| r.1 is Err) && why
                    == no_verifier(read[i].0, read[i].1->Err_0),
        },
    decreases read.len(),
{
    let p = |r: (Seq<char>, Result<Seq<char>, Seq<char>>)| r.1 is Err;
    if read.len() > 0 {
        let before = read.drop_last();
        let n = read.len() - 1;
        credentials_are_read_together(before);
        match verifiers(before) {
            Ok(list) => {
                match verifiers(read) {
                    Ok(all) => {
                        assert forall|i: int| 0 <= i < read.len() implies (#[trigger] read[i]).1 is Ok && all[i] == (
                            read[i].0,
                            read[i].1->Ok_0,
                        ) by {
                            if i < n {
                                assert(before[i] == read[i]);
                                assert(all[i] == list[i]);
                            }
                        }
                    },
                    Err(why) => {
                        assert forall|k: int| 0 <= k < n implies !p(#[trigger] read[k]) by {
                            assert(before[k] == read[k]);
                        }
                        assert(lists::first_at(read, n, p));
                        assert(read[n] == read.last());
                    },
                }
            },
            Err(why) => {
                let i = choose|i: int|
                    #![trigger before[i]]
                    lists::first_at(before, i, p) && why == no_verifier(before[i].0, before[i].1->Err_0);
                assert(read[i] == before[i]);
                assert forall|k: int| 0 <= k < i implies !p(#[trigger] read[k]) by {
                    assert(before[k] == read[k]);
                }
                assert(lists::first_at(read, i, p));
            },
        }
    }
}

/// The position to read at is what was set, at or after zero, and the end of everything where nothing was.
pub proof fn positions_are_at_or_after_zero(read: Result<Option<i64>, Seq<char>>)
    ensures
        match position(read) {
            Ok(at) => read is Ok && (read->Ok_0 is Some ==> at == (read->Ok_0)->0 && at >= 0) && (read->Ok_0 is None
                ==> at
                == 0xffff_ffff_ffff_ffff),
            Err(_) => read is Err || read->Ok_0 is Some && (read->Ok_0)->0 < 0,
        },
{
}

/// The server is what is configured, and by default listens on this machine alone, asks for passwords, runs no
/// functions of its users and reads everything that was published.
pub proof fn servers_are_what_is_configured(
    config: Map<Seq<char>, Seq<char>>,
    readings: Readings,
    users: Seq<(Seq<char>, Seq<char>)>,
    credentials: Seq<(Seq<char>, Result<Seq<char>, Seq<char>>)>,
    defaults: MaintenancePolicy,
    tenant: TenantId,
)
    ensures
        settled(config, readings, users, credentials, defaults, tenant) matches Ok(server) ==> {
            &&& server.tenant == tenant
            &&& server.roles == roles_of(users)
            &&& config.contains_key("server.listen"@) ==> server.listen == config["server.listen"@]
            &&& !config.contains_key("server.listen"@) ==> server.listen == "127.0.0.1:5433"@
            &&& config.contains_key("warehouse.path"@) ==> server.warehouse == config["warehouse.path"@]
            &&& !config.contains_key("warehouse.path"@) ==> server.warehouse == "./warehouse"@
            &&& config.contains_key("server.flight_listen"@) ==> server.flight_listen == Some(
                config["server.flight_listen"@],
            )
            &&& !config.contains_key("server.flight_listen"@) ==> server.flight_listen == Some("127.0.0.1:5434"@)
            &&& config.contains_key("server.metrics_listen"@) ==> server.metrics_listen == Some(
                config["server.metrics_listen"@],
            )
            &&& !config.contains_key("server.metrics_listen"@) ==> server.metrics_listen == Some("127.0.0.1:9464"@)
            &&& server.require_password <==> readings.require_password->Ok_0 != Some(false)
            &&& server.user_functions <==> readings.user_functions->Ok_0 == Some(true)
            &&& readings.read_as_of->Ok_0 is None ==> server.read_as_of == 0xffff_ffff_ffff_ffff
            &&& readings.budget_rows->Ok_0 is None ==> server.cuboid_budget_rows == 10_000_000
            &&& readings.budget_rows->Ok_0 is Some ==> server.cuboid_budget_rows == (readings.budget_rows->Ok_0)->0
            &&& verifiers(credentials) == Ok::<Seq<(Seq<char>, Seq<char>)>, Seq<char>>(server.credentials)
            &&& encryption(config, reading(readings.tls_require)) == Ok::<Option<SecurityView>, Seq<char>>(
                server.transport_security,
            )
        },
        settled(config, readings, users, credentials, defaults, tenant) is Ok <==> {
            &&& readings.require_password is Ok
            &&& readings.user_functions is Ok
            &&& position(reading(readings.read_as_of)) is Ok
            &&& maintenance(
                reading(readings.interval_nanos),
                reading(readings.compact_every),
                reading(readings.orphan_sweep_every),
                defaults,
            ) is Ok
            &&& readings.budget_rows is Ok && (readings.budget_rows->Ok_0 is None || (readings.budget_rows->Ok_0)->0 >= 0)
            &&& verifiers(credentials) is Ok
            &&& encryption(config, reading(readings.tls_require)) is Ok
        },
{
}

/// The directory of the configuration is the one its first file lies in.
pub proof fn configurations_lie_beside_their_first_file(
    rooted: bool,
    inside: Seq<Seq<char>>,
    name: Seq<char>,
    others: Seq<(bool, Seq<Seq<char>>)>,
)
    ensures
        directory_of(seq![(rooted, inside.push(name))] + others) == (rooted, inside),
        directory_of(Seq::empty()) == (false, seq!["config"@]),
{
    let files = seq![(rooted, inside.push(name))] + others;
    assert(files[0] == (rooted, inside.push(name)));
    assert(inside.push(name).drop_last() =~= inside);
}

/// The variables of the environment set what they are named after and nothing else, and the one that turns
/// passwords off does so whatever it holds.
pub proof fn variables_set_what_they_name(variables: Map<Seq<char>, Seq<char>>)
    ensures
        ({
            let set = environment_settings(variables);
            &&& sets(variables, "SANKHYA_LISTEN"@, set, "server.listen"@)
            &&& sets(variables, "SANKHYA_METRICS_LISTEN"@, set, "server.metrics_listen"@)
            &&& sets(variables, "SANKHYA_WAREHOUSE"@, set, "warehouse.path"@)
            &&& sets(variables, "SANKHYA_READ_AS_OF"@, set, "warehouse.read_as_of"@)
            &&& sets(variables, "SANKHYA_DATA_DIR"@, set, "data.dir"@)
            &&& sets(variables, "SANKHYA_USER_FUNCTIONS"@, set, "server.user_functions"@)
            &&& set.contains_key("server.require_password"@) <==> variables.contains_key("SANKHYA_NO_PASSWORD"@)
            &&& variables.contains_key("SANKHYA_NO_PASSWORD"@) ==> set["server.require_password"@] == "false"@
        }),
{
    reveal_with_fuel(set_by, 7);
    let names = mapped();
    assert(names.drop_last() =~= names.take(5));
    assert(names.take(5).drop_last() =~= names.take(4));
    assert(names.take(4).drop_last() =~= names.take(3));
    assert(names.take(3).drop_last() =~= names.take(2));
    assert(names.take(2).drop_last() =~= names.take(1));
    assert(names.take(1).drop_last() =~= names.take(0));
    reveal_strlit("server.listen");
    reveal_strlit("server.metrics_listen");
    reveal_strlit("warehouse.path");
    reveal_strlit("warehouse.read_as_of");
    reveal_strlit("data.dir");
    reveal_strlit("server.user_functions");
    reveal_strlit("server.require_password");
    assert("server.listen"@.len() == 13);
    assert("server.metrics_listen"@.len() == 21);
    assert("warehouse.path"@.len() == 14);
    assert("warehouse.read_as_of"@.len() == 20);
    assert("data.dir"@.len() == 8);
    assert("server.user_functions"@.len() == 21);
    assert("server.require_password"@.len() == 23);
    assert("server.metrics_listen"@[7] == 'm');
    assert("server.user_functions"@[7] == 'u');
}

/// Whether a variable sets a setting: where it is there to what it holds, and else not at all.
pub open spec fn sets(
    variables: Map<Seq<char>, Seq<char>>,
    variable: Seq<char>,
    set: Map<Seq<char>, Seq<char>>,
    setting: Seq<char>,
) -> bool {
    &&& set.contains_key(setting) <==> variables.contains_key(variable)
    &&& variables.contains_key(variable) ==> set[setting] == variables[variable]
}

/// Each command is asked for by its own words; a server is started by the word for it and by none, and every
/// other word is not recognised.
pub proof fn commands_are_asked_for_by_name(word: Seq<char>, second: Option<String>, asked: Command)
    requires
        asks(Some(word), second, asked),
    ensures
        asked is Help <==> word == "--help"@ || word == "-h"@ || word == "help"@,
        asked is Version <==> word == "--version"@ || word == "-V"@ || word == "version"@,
        asked is HashPassword <==> word == "hash-password"@,
        asked is Doctor <==> word == "doctor"@,
        asked is Backup <==> word == "backup"@,
        asked is Drill <==> word == "drill"@,
        asked is Attest <==> word == "attest"@,
        asked is Attest ==> asked->Attest_0 == second,
        asked is Serve <==> word == "start"@,
        asks(None, second, Command::Serve),
{
    reveal_strlit("--help");
    reveal_strlit("-h");
    reveal_strlit("help");
    reveal_strlit("--version");
    reveal_strlit("-V");
    reveal_strlit("version");
    reveal_strlit("hash-password");
    reveal_strlit("doctor");
    reveal_strlit("backup");
    reveal_strlit("drill");
    reveal_strlit("attest");
    reveal_strlit("start");
    assert("--help"@.len() == 6 && "--help"@[0] == '-');
    assert("-h"@.len() == 2 && "-h"@[1] == 'h');
    assert("help"@.len() == 4);
    assert("--version"@.len() == 9);
    assert("-V"@.len() == 2 && "-V"@[1] == 'V');
    assert("version"@.len() == 7);
    assert("hash-password"@.len() == 13);
    assert("doctor"@.len() == 6 && "doctor"@[0] == 'd');
    assert("backup"@.len() == 6 && "backup"@[0] == 'b');
    assert("drill"@.len() == 5 && "drill"@[0] == 'd');
    assert("attest"@.len() == 6 && "attest"@[0] == 'a');
    assert("start"@.len() == 5 && "start"@[0] == 's');
}

/// The last character goes where it is the one to go, and only then.
pub proof fn only_the_last_character_goes(line: Seq<char>, c: char)
    ensures
        without_last(line.push(c), c) == line,
        line.len() == 0 || line.last() != c ==> without_last(line, c) == line,
{
    assert(line.push(c).drop_last() =~= line);
}

} // verus!
